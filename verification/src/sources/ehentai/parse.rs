//! Reading E-Hentai pages: gallery ids, the listing cursor, image keys, the
//! file count, the showkey, image URLs and namespaced tags.
use vstd::prelude::*;
use crate::html::{
    attr_of_match, check_selectors, count_matches, count_within, inner_count, inner_text,
    match_attr, match_count, selector_error, text_within,
};
use crate::model::{
    MangaSimple, SourceError, is_parse_error,
};
use crate::text::{
    all_digits, chars_of, digits_prefix, digits_value, digits_prefix_exec, find, find_exec, find_from,
    find_from_exec, first_of_any, first_of_any_exec, is_digit, lemma_find_from_spec,
    match_positions, matches_at, parse_u32_chars, parse_u64_chars, parse_uint, pieces_from,
    push_all, push_str, rfind, rfind_exec, slice_chars, split_once, split_once_exec, split_second,
    split_second_exec, starts_with, starts_with_exec, string_of, take_until, take_until_exec, trim,
    trim_chars, is_first_match_from, is_last_match, lemma_find_from_is, lemma_rfind_is, trim_end,
    trim_start, is_ws, lemma_trim_padded, lemma_take_until_prefix, opt_string, opt_u32, str_eq, strings_view,
};

verus! {

// ---------------------------------------------------------------------------
// Gallery ids
// ---------------------------------------------------------------------------

/// `gid/token` read from a `/g/<gid>/<token>/` link: both halves are needed
/// to address a gallery, so the id carries them together.
pub open spec fn gallery_id_of(href: Seq<char>) -> Option<Seq<char>> {
    match split_second(href, "/g/"@) {
        None => None,
        Some(rest) => match split_once(rest, '/') {
            None => None,
            Some(parts) => {
                let gid = parts.0;
                let token = take_until(parts.1, '/');
                if gid.len() > 0 && token.len() > 0 && all_digits(gid) {
                    Some(gid + "/"@ + token)
                } else {
                    None
                }
            },
        },
    }
}

fn all_digits_exec(v: &Vec<char>) -> (r: bool)
    ensures
        r == all_digits(v@),
{
    let mut i: usize = 0;
    while i < v.len()
        invariant
            i <= v@.len(),
            forall|j: int| 0 <= j < i ==> is_digit(#[trigger] v@[j]),
        decreases v@.len() - i,
    {
        if !('0' <= v[i] && v[i] <= '9') {
            assert(!is_digit(v@[i as int]));
            return false;
        }
        i += 1;
    }
    true
}

/// The gallery id a gallery link points to.
pub fn gallery_id(href: &str) -> (r: Option<String>)
    ensures
        crate::text::opt_string(r) == gallery_id_of(href@),
{
    let h = chars_of(href);
    let sep = chars_of("/g/");
    proof {
        reveal_strlit("/g/");
    }
    let rest = match split_second_exec(&h, &sep) {
        Some(r) => r,
        None => return None,
    };
    let (gid, after) = match split_once_exec(&rest, '/') {
        Some(p) => p,
        None => return None,
    };
    let token = take_until_exec(&after, '/');
    if gid.len() == 0 || token.len() == 0 || !all_digits_exec(&gid) {
        return None;
    }
    let mut v = gid;
    push_str(&mut v, "/");
    push_all(&mut v, &token);
    Some(string_of(&v))
}

/// The message of a malformed-id error.
pub open spec fn malformed_id_message(id: Seq<char>) -> Seq<char> {
    "malformed gallery id: "@ + id
}

/// The numeric gid and the token of a gallery id, or a parse error when the
/// id has no `/` or its gid is not a number that fits `u64`.
pub open spec fn split_id_of(id: Seq<char>) -> Option<(nat, Seq<char>)> {
    match split_once(id, '/') {
        None => None,
        Some(parts) => match parse_uint(parts.0, u64::MAX as nat) {
            None => None,
            Some(gid) => Some((gid, parts.1)),
        },
    }
}

/// Every id `gallery_id` reads off a link splits back into its gid and
/// token, as long as the gid fits a `u64`.
pub proof fn lemma_split_id_accepts_gallery_ids(href: Seq<char>, id: Seq<char>)
    requires
        gallery_id_of(href) == Some(id),
        digits_value(take_until(id, '/')) <= u64::MAX as nat,
    ensures
        split_id_of(id) == Some(
            (digits_value(take_until(id, '/')), id.skip(take_until(id, '/').len() as int + 1)),
        ),
{
    let rest = split_second(href, "/g/"@).unwrap();
    let parts = split_once(rest, '/').unwrap();
    let gid = parts.0;
    let token = take_until(parts.1, '/');
    assert(id == gid + "/"@ + token);
    let n = gid.len() as int;
    assert(id[n] == '/') by {
        reveal_strlit("/");
    }
    assert forall|j: int| 0 <= j < n implies id[j] != '/' by {
        assert(id[j] == gid[j]);
        assert(is_digit(gid[j]));
    }
    lemma_take_until_prefix(id, '/', n);
    assert(id.take(n) =~= gid);
    assert(matches_at(id, seq!['/'], n)) by {
        assert(id.subrange(n, n + 1) =~= seq!['/']);
    }
    assert forall|j: int| 0 <= j < n implies !#[trigger] matches_at(id, seq!['/'], j) by {
        if matches_at(id, seq!['/'], j) {
            assert(id.subrange(j, j + 1)[0] == id[j]);
        }
    }
    lemma_find_from_is(id, seq!['/'], 0, n);
    assert(id.skip(n + 1) =~= token) by {
        reveal_strlit("/");
    }
    assert(gid.len() > 0 && gid[0] != '+') by {
        assert(is_digit(gid[0]));
    }
}

/// Splits a gallery id into its numeric gid and its token.
pub fn split_id(id: &str) -> (r: Result<(u64, String), SourceError>)
    ensures
        r matches Ok(p) ==> split_id_of(id@) == Some((p.0 as nat, p.1@)),
        r matches Err(e) ==> split_id_of(id@) is None && is_parse_error(
            e,
            malformed_id_message(id@),
        ),
{
    let v = chars_of(id);
    let mut msg = chars_of("malformed gallery id: ");
    push_str(&mut msg, id);
    let (gid, token) = match split_once_exec(&v, '/') {
        Some(p) => p,
        None => return Err(SourceError::Parse { message: string_of(&msg) }),
    };
    match parse_u64_chars(&gid) {
        Some(g) => Ok((g, string_of(&token))),
        None => Err(SourceError::Parse { message: string_of(&msg) }),
    }
}

// ---------------------------------------------------------------------------
// Listing cursor
// ---------------------------------------------------------------------------

/// The digits after the last of the `next=` occurrences at `positions` that
/// is followed by digits.
pub open spec fn last_cursor(html: Seq<char>, positions: Seq<int>) -> Option<Seq<char>>
    decreases positions.len(),
{
    if positions.len() == 0 {
        None
    } else {
        let v = digits_prefix(html.skip(positions.last() + 5));
        if v.len() > 0 {
            Some(v)
        } else {
            last_cursor(html, positions.drop_last())
        }
    }
}

/// The cursor of the next listing page: the gid after the last `next=` on
/// the page that carries one. E-Hentai pages by cursor, not offset; its
/// absence marks the last page.
pub open spec fn next_cursor_of(html: Seq<char>) -> Option<Seq<char>> {
    last_cursor(html, match_positions(html, "next="@, 0))
}

/// Unfolds `match_positions` one step.
proof fn lemma_match_positions_step(s: Seq<char>, p: Seq<char>, from: int)
    requires
        p.len() > 0,
        0 <= from <= s.len(),
    ensures
        match find_from(s, p, from) {
            None => match_positions(s, p, from) == Seq::<int>::empty(),
            Some(i) => match_positions(s, p, from) == seq![i] + match_positions(s, p, i + p.len())
                && from <= i && i + p.len() <= s.len(),
        },
{
    lemma_find_from_spec(s, p, from);
}

/// The cursor of the next listing page, read from the page's HTML.
#[verifier::spinoff_prover]
pub fn next_cursor(html: &str) -> (r: Option<String>)
    ensures
        crate::text::opt_string(r) == next_cursor_of(html@),
{
    let s = chars_of(html);
    let marker = chars_of("next=");
    proof {
        reveal_strlit("next=");
    }
    assert(marker@.len() == 5);
    let mut best: Option<Vec<char>> = None;
    let mut from: usize = 0;
    let ghost mut done: Seq<int> = Seq::empty();
    loop
        invariant
            s@ == html@,
            marker@ == "next="@,
            marker@.len() == 5,
            from <= s@.len(),
            match_positions(s@, marker@, 0) == done + match_positions(s@, marker@, from as int),
            crate::text::opt_chars(best) == last_cursor(s@, done),
        decreases s@.len() - from,
    {
        proof {
            lemma_match_positions_step(s@, marker@, from as int);
        }
        match find_from_exec(&s, &marker, from) {
            None => {
                assert(done + Seq::<int>::empty() =~= done);
                assert(match_positions(s@, marker@, 0) == done);
                assert(s@ == html@);
                assert(match_positions(html@, "next="@, 0) == done);
                assert(next_cursor_of(html@) == last_cursor(html@, done));
                return match best {
                    Some(v) => {
                        let r = string_of(&v);
                        assert(crate::text::opt_string(Some(r)) == crate::text::opt_chars(Some(v)));
                        Some(r)
                    },
                    None => None,
                };
            },
            Some(i) => {
                assert(matches_at(s@, marker@, i as int));
                let _n = s.len();
                let v = digits_prefix_exec(&s, i + 5);
                proof {
                    assert(done.push(i as int).drop_last() =~= done);
                    assert(done.push(i as int) + match_positions(s@, marker@, i + 5) =~= done
                        + (seq![i as int] + match_positions(s@, marker@, i + 5)));
                    done = done.push(i as int);
                }
                if v.len() > 0 {
                    best = Some(v);
                }
                from = i + 5;
            },
        }
    }
}

// ---------------------------------------------------------------------------
// Image keys
// ---------------------------------------------------------------------------

/// The characters that end a link's path.
pub open spec fn path_terminators() -> Seq<char> {
    seq!['"', '\'', ' ', '>']
}

/// The `(page, imgkey)` a `/s/<imgkey>/<gid>-<page>` link at `idx` names,
/// when it belongs to gallery `gid`.
pub open spec fn image_key_at(html: Seq<char>, gid: u64, idx: int) -> Option<(u32, Seq<char>)> {
    let rest = html.skip(idx + 3);
    match first_of_any(rest, path_terminators()) {
        None => None,
        Some(end) => match split_once(rest.take(end), '/') {
            None => None,
            Some(a) => match split_once(a.1, '-') {
                None => None,
                Some(b) => if parse_uint(b.0, u64::MAX as nat) != Some(gid as nat) {
                    None
                } else {
                    match parse_uint(b.1, u32::MAX as nat) {
                        None => None,
                        Some(page) => Some((page as u32, a.0)),
                    }
                },
            },
        },
    }
}

/// The entries the links at `positions` name, in page order of appearance,
/// keeping the first entry of each page number.
pub open spec fn image_keys_at(html: Seq<char>, gid: u64, positions: Seq<int>) -> Seq<
    (u32, Seq<char>),
>
    decreases positions.len(),
{
    if positions.len() == 0 {
        Seq::empty()
    } else {
        let prev = image_keys_at(html, gid, positions.drop_last());
        match image_key_at(html, gid, positions.last()) {
            None => prev,
            Some(e) => add_key(prev, e),
        }
    }
}

/// Some entry of `v` is for page `page`.
pub open spec fn has_page(v: Seq<(u32, Seq<char>)>, page: u32) -> bool {
    exists|k: int| 0 <= k < v.len() && (#[trigger] v[k]).0 == page
}

/// `v` with `e` added at the end unless its page is already there.
pub open spec fn add_key(v: Seq<(u32, Seq<char>)>, e: (u32, Seq<char>)) -> Seq<(u32, Seq<char>)> {
    if has_page(v, e.0) {
        v
    } else {
        v.push(e)
    }
}

/// Every image key link of gallery `gid` on a page, first of each page
/// number, before sorting.
pub open spec fn image_keys_of(html: Seq<char>, gid: u64) -> Seq<(u32, Seq<char>)> {
    image_keys_at(html, gid, match_positions(html, "/s/"@, 0))
}

/// Entries strictly ascending by page number.
pub open spec fn ascending_pages(v: Seq<(u32, Seq<char>)>) -> bool {
    forall|i: int, j: int| 0 <= i < j < v.len() ==> (#[trigger] v[i]).0 < (#[trigger] v[j]).0
}

/// The view of a list of `(page, key)` entries.
pub open spec fn keys_view(v: Seq<(u32, String)>) -> Seq<(u32, Seq<char>)> {
    v.map_values(|e: (u32, String)| (e.0, e.1@))
}

/// The image key a link at `idx` (just past its `/s/`) names.
#[verifier::spinoff_prover]
#[verifier::rlimit(40)]
fn image_key_exec(s: &Vec<char>, gid: u64, idx: usize) -> (r: Option<(u32, Vec<char>)>)
    requires
        idx + 3 <= s@.len(),
    ensures
        match r {
            Some(e) => image_key_at(s@, gid, idx as int) == Some((e.0, e.1@)),
            None => image_key_at(s@, gid, idx as int) is None,
        },
{
    let _n = s.len();
    let terms = vec!['"', '\'', ' ', '>'];
    assert(terms@ =~= path_terminators());
    let ghost rest = s@.skip(idx + 3);
    let end = match first_of_any_exec(s, &terms, idx + 3) {
        Some(e) => e,
        None => return None,
    };
    let path = slice_chars(s, idx + 3, end);
    assert(path@ =~= rest.take(end - (idx + 3)));
    let ghost a = split_once(path@, '/');
    let (imgkey, tail) = match split_once_exec(&path, '/') {
        Some(p) => p,
        None => return None,
    };
    assert(a == Some((imgkey@, tail@)));
    let (row_gid, page) = match split_once_exec(&tail, '-') {
        Some(p) => p,
        None => return None,
    };
    let ok = match parse_u64_chars(&row_gid) {
        Some(g) => g == gid,
        None => false,
    };
    if !ok {
        assert(parse_uint(row_gid@, u64::MAX as nat) != Some(gid as nat));
        return None;
    }
    assert(parse_uint(row_gid@, u64::MAX as nat) == Some(gid as nat));
    match parse_u32_chars(&page) {
        Some(p) => Some((p, imgkey)),
        None => None,
    }
}

proof fn lemma_image_keys_step(html: Seq<char>, gid: u64, done: Seq<int>, i: int)
    ensures
        ({
            let prev = image_keys_at(html, gid, done);
            image_keys_at(html, gid, done.push(i)) == match image_key_at(html, gid, i) {
                None => prev,
                Some(e) => add_key(prev, e),
            }
        }),
{
    assert(done.push(i).drop_last() =~= done);
}

/// The `/s/<imgkey>/<gid>-<page>` links on a gallery page that belong to
/// gallery `gid`, one per page number (the first seen), in page order.
#[verifier::spinoff_prover]
#[verifier::rlimit(60)]
pub fn parse_image_keys(html: &str, gid: u64) -> (r: Vec<(u32, String)>)
    ensures
        ascending_pages(keys_view(r@)),
        keys_view(r@).len() == image_keys_of(html@, gid).len(),
        forall|e: (u32, Seq<char>)|
            keys_view(r@).contains(e) <==> image_keys_of(html@, gid).contains(e),
{
    let s = chars_of(html);
    let needle = chars_of("/s/");
    proof {
        reveal_strlit("/s/");
    }
    assert(needle@.len() == 3);
    let mut out: Vec<(u32, String)> = Vec::new();
    let mut from: usize = 0;
    let ghost mut done: Seq<int> = Seq::empty();
    loop
        invariant
            s@ == html@,
            needle@ == "/s/"@,
            needle@.len() == 3,
            from <= s@.len(),
            match_positions(s@, needle@, 0) == done + match_positions(s@, needle@, from as int),
            ascending_pages(keys_view(out@)),
            keys_view(out@).len() == image_keys_at(s@, gid, done).len(),
            forall|e: (u32, Seq<char>)|
                keys_view(out@).contains(e) <==> image_keys_at(s@, gid, done).contains(e),
            forall|k: int, m: int|
                0 <= k < m < image_keys_at(s@, gid, done).len() ==> (#[trigger] image_keys_at(
                    s@,
                    gid,
                    done,
                )[k]).0 != (#[trigger] image_keys_at(s@, gid, done)[m]).0,
        decreases s@.len() - from,
    {
        proof {
            lemma_match_positions_step(s@, needle@, from as int);
        }
        match find_from_exec(&s, &needle, from) {
            None => {
                assert(done + Seq::<int>::empty() =~= done);
                return out;
            },
            Some(i) => {
                assert(matches_at(s@, needle@, i as int));
                let _n = s.len();
                let entry = image_key_exec(&s, gid, i);
                let ghost prev_done = done;
                let ghost prev = image_keys_at(s@, gid, prev_done);
                proof {
                    lemma_image_keys_step(s@, gid, done, i as int);
                    assert(done.push(i as int) + match_positions(s@, needle@, i + 3) =~= done
                        + (seq![i as int] + match_positions(s@, needle@, i + 3)));
                    done = done.push(i as int);
                }
                match entry {
                    None => {},
                    Some(e) => {
                        let page = e.0;
                        let key = string_of(&e.1);
                        let ghost cur = image_keys_at(s@, gid, done);
                        assert(image_key_at(s@, gid, i as int) == Some((page, key@)));
                        assert(cur == add_key(prev, (page, key@)));
                        insert_key(&mut out, page, key, Ghost(prev));
                        assert forall|x: (u32, Seq<char>)|
                            keys_view(out@).contains(x) <==> cur.contains(x) by {}
                    },
                }
                from = i + 3;
            },
        }
    }
}

/// Adds `(page, key)` to an ascending list of entries unless its page is
/// already there, keeping the list ascending.
#[verifier::spinoff_prover]
pub(crate) fn insert_key(out: &mut Vec<(u32, String)>, page: u32, key: String, Ghost(prev): Ghost<Seq<(u32, Seq<char>)>>)
    requires
        ascending_pages(keys_view(old(out)@)),
        keys_view(old(out)@).len() == prev.len(),
        forall|e: (u32, Seq<char>)| keys_view(old(out)@).contains(e) <==> prev.contains(e),
        forall|k: int, m: int| 0 <= k < m < prev.len() ==> (#[trigger] prev[k]).0 != (#[trigger] prev[m]).0,
    ensures
        ascending_pages(keys_view(final(out)@)),
        ({
            let next = add_key(prev, (page, key@));
            &&& keys_view(final(out)@).len() == next.len()
            &&& forall|e: (u32, Seq<char>)| keys_view(final(out)@).contains(e) <==> next.contains(e)
            &&& forall|k: int, m: int|
                0 <= k < m < next.len() ==> (#[trigger] next[k]).0 != (#[trigger] next[m]).0
        }),
{
    let ghost old_v = keys_view(out@);
    assert(old_v == keys_view(old(out)@));
    let mut pos: usize = 0;
    while pos < out.len() && out[pos].0 < page
        invariant
            pos <= out@.len(),
            old_v == keys_view(out@),
            forall|k: int| 0 <= k < pos ==> (#[trigger] out@[k]).0 < page,
        decreases out@.len() - pos,
    {
        pos += 1;
    }
    if pos < out.len() && out[pos].0 == page {
        proof {
            assert(old_v[pos as int] == (out@[pos as int].0, out@[pos as int].1@));
            assert(old_v[pos as int].0 == page);
            assert(old_v.contains(old_v[pos as int]));
            assert(keys_view(old(out)@).contains(old_v[pos as int]));
            assert(prev.contains(old_v[pos as int]));
            let k = choose|k: int| 0 <= k < prev.len() && prev[k] == old_v[pos as int];
            assert(prev[k].0 == page);
        }
        return;
    }
    proof {
        assert forall|k: int| 0 <= k < prev.len() implies (#[trigger] prev[k]).0 != page by {
            assert(prev.contains(prev[k]));
            assert(old_v.contains(prev[k]));
            let m = choose|m: int| 0 <= m < old_v.len() && old_v[m] == prev[k];
            if m < pos {
                assert(out@[m].0 < page);
            } else {
                if m > pos {
                    assert(old_v[pos as int].0 < old_v[m].0);
                }
                assert(out@[pos as int].0 > page || m > pos);
            }
        }
    }
    out.insert(pos, (page, key));
    proof {
        let nv = keys_view(out@);
        let next = prev.push((page, key@));
        assert(nv =~= old_v.insert(pos as int, (page, key@)));
        assert forall|i: int, j: int| 0 <= i < j < nv.len() implies (#[trigger] nv[i]).0 < (
        #[trigger] nv[j]).0 by {
            if j < pos {
            } else if j == pos {
                assert(nv[i] == old_v[i]);
            } else if i == pos {
                assert(nv[j] == old_v[j - 1]);
                if j - 1 > pos {
                    assert(old_v[pos as int].0 < old_v[j - 1].0);
                }
            } else if i < pos {
                assert(nv[i] == old_v[i]);
                assert(nv[j] == old_v[j - 1]);
            } else {
                assert(nv[i] == old_v[i - 1]);
                assert(nv[j] == old_v[j - 1]);
            }
        }
        assert forall|e: (u32, Seq<char>)| nv.contains(e) <==> next.contains(e) by {
            if nv.contains(e) {
                let m = choose|m: int| 0 <= m < nv.len() && nv[m] == e;
                if m != pos {
                    let o = if m < pos { m } else { m - 1 };
                    assert(nv[m] == old_v[o]);
                    assert(old_v.contains(old_v[o]));
                    assert(keys_view(old(out)@).contains(old_v[o]));
                    assert(prev.contains(old_v[o]));
                    let k = choose|k: int| 0 <= k < prev.len() && prev[k] == old_v[o];
                    assert(next[k] == prev[k]);
                } else {
                    assert(next[prev.len() as int] == e);
                }
            }
            if next.contains(e) {
                let k = choose|k: int| 0 <= k < next.len() && next[k] == e;
                if k < prev.len() {
                    assert(prev.contains(prev[k]));
                    assert(keys_view(old(out)@).contains(prev[k]));
                    let o = choose|o: int| 0 <= o < old_v.len() && old_v[o] == prev[k];
                    if o < pos {
                        assert(nv[o] == old_v[o]);
                    } else {
                        assert(nv[o + 1] == old_v[o]);
                    }
                } else {
                    assert(nv[pos as int] == e);
                }
            }
        }
        assert forall|k: int, m: int| 0 <= k < m < next.len() implies (#[trigger] next[k]).0 != (
        #[trigger] next[m]).0 by {
            if m == prev.len() {
                assert(prev[k].0 != page);
            }
        }
    }
}

// ---------------------------------------------------------------------------
// Single-value fields
// ---------------------------------------------------------------------------

/// The total image count from the gallery page's `N pages` row: the text
/// between the last `>` before the first ` pages</td>` and that marker,
/// trimmed, as a number.
pub open spec fn file_count_of(html: Seq<char>) -> Option<nat> {
    match find(html, " pages</td>"@) {
        None => None,
        Some(idx) => {
            let head = html.take(idx);
            match rfind(head, ">"@) {
                None => None,
                Some(gt) => parse_uint(trim(head.skip(gt + 1)), u32::MAX as nat),
            }
        },
    }
}

/// Total image count, read from the gallery page's "N pages" row.
pub fn parse_file_count(html: &str) -> (r: Option<u32>)
    ensures
        opt_u32(r) == file_count_of(html@),
{
    let s = chars_of(html);
    let marker = chars_of(" pages</td>");
    let idx = match find_exec(&s, &marker) {
        Some(i) => i,
        None => return None,
    };
    assert(matches_at(s@, marker@, idx as int));
    let head = slice_chars(&s, 0, idx);
    assert(head@ =~= s@.take(idx as int));
    let gt = chars_of(">");
    proof {
        reveal_strlit(">");
    }
    let g = match rfind_exec(&head, &gt) {
        Some(g) => g,
        None => return None,
    };
    assert(matches_at(head@, gt@, g as int));
    let tail = slice_chars(&head, g + 1, head.len());
    assert(tail@ =~= head@.skip(g + 1));
    let t = trim_chars(&tail);
    parse_u32_chars(&t)
}

/// The gallery's showkey: the text after the first `var showkey="` up to the
/// next quote, if not empty.
pub open spec fn showkey_of(html: Seq<char>) -> Option<Seq<char>> {
    match split_second(html, "var showkey=\""@) {
        None => None,
        Some(rest) => if take_until(rest, '"').len() > 0 {
            Some(take_until(rest, '"'))
        } else {
            None
        },
    }
}

/// The showkey the image page carries, which every later image request
/// needs.
pub fn parse_showkey(html: &str) -> (r: Option<String>)
    ensures
        crate::text::opt_string(r) == showkey_of(html@),
{
    let s = chars_of(html);
    let marker = chars_of("var showkey=\"");
    proof {
        reveal_strlit("var showkey=\"");
    }
    let rest = match split_second_exec(&s, &marker) {
        Some(r) => r,
        None => return None,
    };
    let key = take_until_exec(&rest, '"');
    if key.len() > 0 {
        Some(string_of(&key))
    } else {
        None
    }
}

/// The image URL of an `<img id="img" src="...">`: the `src` value after the
/// first `id="img"`, if it is an `http` URL.
pub open spec fn image_src_of(html: Seq<char>) -> Option<Seq<char>> {
    match find(html, "id=\"img\""@) {
        None => None,
        Some(idx) => match split_second(html.skip(idx), "src=\""@) {
            None => None,
            Some(src) => if starts_with(take_until(src, '"'), "http"@) {
                Some(take_until(src, '"'))
            } else {
                None
            },
        },
    }
}

/// Pulls the image URL out of an `<img id="img" src="...">`, which is how
/// both the image page and the `showpage` API return it.
pub fn parse_image_src(html: &str) -> (r: Option<String>)
    ensures
        crate::text::opt_string(r) == image_src_of(html@),
{
    let s = chars_of(html);
    let marker = chars_of("id=\"img\"");
    let idx = match find_exec(&s, &marker) {
        Some(i) => i,
        None => return None,
    };
    assert(matches_at(s@, marker@, idx as int));
    let rest = slice_chars(&s, idx, s.len());
    assert(rest@ =~= s@.skip(idx as int));
    let src_marker = chars_of("src=\"");
    proof {
        reveal_strlit("src=\"");
    }
    let src = match split_second_exec(&rest, &src_marker) {
        Some(v) => v,
        None => return None,
    };
    let url = take_until_exec(&src, '"');
    let http = chars_of("http");
    if starts_with_exec(&url, &http) {
        Some(string_of(&url))
    } else {
        None
    }
}

/// The `(index, key)` of every piece after the first that starts with a
/// non-empty key, numbered by piece index.
pub open spec fn mpv_entries(pieces: Seq<Seq<char>>) -> Seq<(u32, Seq<char>)>
    decreases pieces.len(),
{
    if pieces.len() <= 1 {
        Seq::empty()
    } else {
        let prev = mpv_entries(pieces.drop_last());
        let key = take_until(pieces.last(), '"');
        if key.len() > 0 {
            prev.push(((pieces.len() - 1) as u32, key))
        } else {
            prev
        }
    }
}

/// The viewer's list numbers its keys in ascending order, as long as it has
/// fewer than 2^32 entries (numbers are taken as `u32`).
pub proof fn lemma_mpv_entries_ascending(pieces: Seq<Seq<char>>)
    requires
        pieces.len() <= 0x1_0000_0000,
    ensures
        ascending_pages(mpv_entries(pieces)),
        forall|k: int|
            0 <= k < mpv_entries(pieces).len() ==> (#[trigger] mpv_entries(pieces)[k]).0 < pieces.len(),
    decreases pieces.len(),
{
    if pieces.len() > 1 {
        lemma_mpv_entries_ascending(pieces.drop_last());
    }
}

/// Splitting leaves at most one piece more than there are characters.
proof fn lemma_pieces_len(s: Seq<char>, p: Seq<char>, from: int)
    requires
        p.len() > 0,
        0 <= from <= s.len(),
    ensures
        pieces_from(s, p, from).len() <= s.len() - from + 1,
    decreases s.len() - from,
{
    lemma_pieces_step(s, p, from);
    match find_from(s, p, from) {
        None => {},
        Some(i) => {
            lemma_pieces_len(s, p, i + p.len());
        },
    }
}

/// The part `split_second` keeps is no longer than what it splits.
proof fn lemma_split_second_len(s: Seq<char>, p: Seq<char>)
    ensures
        split_second(s, p) matches Some(r) ==> r.len() <= s.len(),
{
    lemma_find_from_spec(s, p, 0);
    if let Some(i) = find(s, p) {
        lemma_find_from_spec(s, p, i + p.len());
    }
}

/// The viewer's keys ascend by page number on any page shorter than 2^32
/// characters.
pub proof fn lemma_mpv_keys_ascending(html: Seq<char>)
    requires
        html.len() < 0x1_0000_0000,
    ensures
        ascending_pages(mpv_keys_of(html)),
{
    let marker = "var imagelist = "@;
    lemma_split_second_len(html, marker);
    if let Some(rest) = split_second(html, marker) {
        let close = "];"@;
        lemma_find_from_spec(rest, close, 0);
        if let Some(end) = find(rest, close) {
            let body = rest.take(end);
            let k = "\"k\":\""@;
            reveal_strlit("\"k\":\"");
            lemma_pieces_len(body, k, 0);
            lemma_mpv_entries_ascending(pieces_from(body, k, 0));
        }
    }
}

/// The multi-page viewer's `imagelist`: the keys of its entries, numbered by
/// their position in the list.
pub open spec fn mpv_keys_of(html: Seq<char>) -> Seq<(u32, Seq<char>)> {
    match split_second(html, "var imagelist = "@) {
        None => Seq::empty(),
        Some(rest) => match find(rest, "];"@) {
            None => Seq::empty(),
            Some(end) => mpv_entries(pieces_from(rest.take(end), "\"k\":\""@, 0)),
        },
    }
}

/// Unfolds `pieces_from` one step.
proof fn lemma_pieces_step(s: Seq<char>, p: Seq<char>, from: int)
    requires
        p.len() > 0,
        0 <= from <= s.len(),
    ensures
        match find_from(s, p, from) {
            None => pieces_from(s, p, from) == seq![s.subrange(from, s.len() as int)],
            Some(i) => pieces_from(s, p, from) == seq![s.subrange(from, i)] + pieces_from(
                s,
                p,
                i + p.len(),
            ) && from <= i && i + p.len() <= s.len(),
        },
{
    lemma_find_from_spec(s, p, from);
}

/// The multi-page viewer's `imagelist`, which yields every image key in one
/// request instead of paging the gallery 20 rows at a time.
#[verifier::spinoff_prover]
pub fn parse_mpv_keys(html: &str) -> (r: Vec<(u32, String)>)
    ensures
        keys_view(r@) == mpv_keys_of(html@),
{
    let s = chars_of(html);
    let marker = chars_of("var imagelist = ");
    proof {
        reveal_strlit("var imagelist = ");
    }
    let rest = match split_second_exec(&s, &marker) {
        Some(r) => r,
        None => {
            let e: Vec<(u32, String)> = Vec::new();
            assert(keys_view(e@) =~= Seq::<(u32, Seq<char>)>::empty());
            return e;
        },
    };
    let close = chars_of("];");
    let end = match find_exec(&rest, &close) {
        Some(e) => e,
        None => {
            let e: Vec<(u32, String)> = Vec::new();
            assert(keys_view(e@) =~= Seq::<(u32, Seq<char>)>::empty());
            return e;
        },
    };
    assert(matches_at(rest@, close@, end as int));
    let seg = slice_chars(&rest, 0, end);
    assert(seg@ =~= rest@.take(end as int));
    let delim = chars_of("\"k\":\"");
    proof {
        reveal_strlit("\"k\":\"");
    }
    assert(delim@.len() == 5);
    assert(mpv_keys_of(html@) == mpv_entries(pieces_from(seg@, delim@, 0)));
    let mut out: Vec<(u32, String)> = Vec::new();
    let mut from: usize = 0;
    let mut index: usize = 0;
    let ghost mut seen: Seq<Seq<char>> = Seq::empty();
    loop
        invariant
            mpv_keys_of(html@) == mpv_entries(pieces_from(seg@, delim@, 0)),
            delim@ == "\"k\":\""@,
            delim@.len() == 5,
            from <= seg@.len(),
            index == seen.len(),
            index <= from,
            pieces_from(seg@, delim@, 0) == seen + pieces_from(seg@, delim@, from as int),
            keys_view(out@) == mpv_entries(seen),
        decreases seg@.len() - from,
    {
        proof {
            lemma_pieces_step(seg@, delim@, from as int);
        }
        let next = find_from_exec(&seg, &delim, from);
        let end_of_piece = match next {
            Some(j) => j,
            None => seg.len(),
        };
        let piece = slice_chars(&seg, from, end_of_piece);
        let ghost before = seen;
        proof {
            seen = seen.push(piece@);
            assert(seen.drop_last() =~= before);
        }
        if index >= 1 {
            let key = take_until_exec(&piece, '"');
            if key.len() > 0 {
                out.push((#[verifier::truncate] (index as u32), string_of(&key)));
                assert(keys_view(out@) =~= mpv_entries(before).push(
                    (#[verifier::truncate] (index as u32), key@),
                ));
            }
        } else {
            assert(seen.len() == 1);
        }
        match next {
            None => {
                assert(seen =~= before + seq![piece@]);
                return out;
            },
            Some(j) => {
                assert(from <= j);
                assert(matches_at(seg@, delim@, j as int));
                let _n = seg.len();
                assert(before + (seq![piece@] + pieces_from(seg@, delim@, j + 5)) =~= seen
                    + pieces_from(seg@, delim@, j + 5));
                from = j + 5;
                index += 1;
            },
        }
    }
}

// ---------------------------------------------------------------------------
// Namespaced tags
// ---------------------------------------------------------------------------

/// The part of a `namespace:label` tag after the first `:`, or the whole tag.
pub open spec fn label_of(raw: Seq<char>) -> Seq<char> {
    match split_once(raw, ':') {
        Some(p) => p.1,
        None => raw,
    }
}

/// The part of a `namespace:label` tag before the first `:`, or nothing.
pub open spec fn namespace_of(raw: Seq<char>) -> Seq<char> {
    match split_once(raw, ':') {
        Some(p) => p.0,
        None => Seq::empty(),
    }
}

/// The label of a namespaced tag.
pub fn tag_label(raw: &str) -> (r: &str)
    ensures
        r@ == label_of(raw@),
{
    let v = chars_of(raw);
    match crate::text::find_char_exec(&v, ':', 0) {
        Some(i) => {
            let n = v.len();
            raw.substring_char(i + 1, n)
        },
        None => raw,
    }
}

/// The namespace of a namespaced tag.
pub fn tag_namespace(raw: &str) -> (r: &str)
    ensures
        r@ == namespace_of(raw@),
{
    let v = chars_of(raw);
    match crate::text::find_char_exec(&v, ':', 0) {
        Some(i) => raw.substring_char(0, i),
        None => {
            let e = raw.substring_char(0, 0);
            assert(e@ =~= Seq::<char>::empty());
            e
        },
    }
}

// ---------------------------------------------------------------------------
// Listings
// ---------------------------------------------------------------------------

/// A gallery link of a listing row, in either table layout.
pub const ROW_LINK: &'static str = "table.itg td.gl3c.glname a, table.itg td.gl2c a";

/// The title inside a gallery link.
pub const ROW_TITLE: &'static str = ".glink";

/// A listing row's thumbnail image.
pub const THUMB_IMG: &'static str = "table.itg td.gl2c .glthumb img";

/// The ids of listing rows.
pub open spec fn row_ids(rows: Seq<(Seq<char>, Seq<char>)>) -> Seq<Seq<char>> {
    rows.map_values(|r: (Seq<char>, Seq<char>)| r.0)
}

/// The rows of the first `n` gallery links, as `(id, title)`: a link counts
/// when it has an `href` naming a gallery not seen yet and a title; the
/// title is trimmed.
pub open spec fn listing_rows(html: Seq<char>, n: nat) -> Seq<(Seq<char>, Seq<char>)>
    decreases n,
{
    if n == 0 {
        Seq::empty()
    } else {
        let k = (n - 1) as nat;
        next_rows(
            listing_rows(html, (n - 1) as nat),
            match_attr(html, ROW_LINK@, k, "href"@),
            if inner_count(html, ROW_LINK@, k, ROW_TITLE@) == 0 {
                None
            } else {
                Some(inner_text(html, ROW_LINK@, k, ROW_TITLE@, 0))
            },
        )
    }
}

/// The rows after one more gallery link with this `href` and title text:
/// it adds `(id, trimmed title)` when its `href` names a gallery not seen
/// yet and it has a title.
pub open spec fn next_rows(
    prev: Seq<(Seq<char>, Seq<char>)>,
    href: Option<Seq<char>>,
    title: Option<Seq<char>>,
) -> Seq<(Seq<char>, Seq<char>)> {
    match href {
        None => prev,
        Some(h) => match gallery_id_of(h) {
            None => prev,
            Some(id) => match title {
                Some(t) if !row_ids(prev).contains(id) => prev.push((id, trim(t))),
                _ => prev,
            },
        },
    }
}

/// Cards as `(id, title)`.
pub open spec fn rows_view(items: Seq<MangaSimple>) -> Seq<(Seq<char>, Seq<char>)> {
    items.map_values(|m: MangaSimple| (m.id@, m.title@))
}

/// A listing never shows a gallery twice: the ids of its rows are distinct.
pub proof fn lemma_listing_ids_distinct(html: Seq<char>, n: nat)
    ensures
        forall|i: int, j: int|
            0 <= i < j < listing_rows(html, n).len() ==> listing_rows(html, n)[i].0 != listing_rows(
                html,
                n,
            )[j].0,
    decreases n,
{
    if n > 0 {
        lemma_listing_ids_distinct(html, (n - 1) as nat);
        let prev = listing_rows(html, (n - 1) as nat);
        let rows = listing_rows(html, n);
        if rows.len() > prev.len() {
            assert(rows == prev.push(rows.last()));
            assert forall|i: int, j: int| 0 <= i < j < rows.len() implies rows[i].0 != rows[j].0 by {
                if j == rows.len() - 1 {
                    assert(row_ids(prev)[i] == prev[i].0);
                    if rows[i].0 == rows[j].0 {
                        assert(row_ids(prev).contains(rows.last().0));
                    }
                } else {
                    assert(rows[i] == prev[i] && rows[j] == prev[j]);
                }
            }
        }
    }
}

/// The address of every row thumbnail, in order: `data-src`, else `src`,
/// else nothing.
pub open spec fn listing_thumbs(html: Seq<char>) -> Seq<Seq<char>> {
    Seq::new(
        match_count(html, THUMB_IMG@),
        |k: int|
            match (match_attr(html, THUMB_IMG@, k as nat, "data-src"@), match_attr(html, THUMB_IMG@, k as nat, "src"@)) {
                (Some(a), _) => a,
                (None, Some(b)) => b,
                _ => Seq::empty(),
            },
    )
}

/// The row thumbnails of a listing page, in order.
pub fn parse_thumbs(html: &str) -> (r: Result<Vec<String>, SourceError>)
    ensures
        match selector_error(seq![THUMB_IMG@]) {
            Some(m) => r matches Err(e) && is_parse_error(e, m),
            None => r matches Ok(v) && strings_view(v@) == listing_thumbs(html@),
        },
{
    let sels = vec![THUMB_IMG];
    assert(sels@.map_values(|s: &str| s@) =~= seq![THUMB_IMG@]);
    match check_selectors(&sels) {
        Err(e) => {
            return Err(e);
        },
        Ok(_) => {},
    }
    let n = count_matches(html, THUMB_IMG);
    let mut out: Vec<String> = Vec::new();
    let mut i: usize = 0;
    while i < n
        invariant
            i <= n,
            n as nat == match_count(html@, THUMB_IMG@),
            strings_view(out@) == listing_thumbs(html@).take(i as int),
        decreases n - i,
    {
        let src = match attr_of_match(html, THUMB_IMG, i, "data-src") {
            Some(a) => a,
            None => match attr_of_match(html, THUMB_IMG, i, "src") {
                Some(b) => b,
                None => String::new(),
            },
        };
        let ghost before = out@;
        out.push(src);
        assert(strings_view(out@) =~= strings_view(before).push(src@));
        assert(listing_thumbs(html@).take(i + 1) =~= listing_thumbs(html@).take(i as int).push(
            src@,
        ));
        i += 1;
    }
    assert(listing_thumbs(html@).take(n as int) =~= listing_thumbs(html@));
    Ok(out)
}

fn seen_id(items: &Vec<MangaSimple>, id: &String) -> (r: bool)
    ensures
        r == items@.map_values(|m: MangaSimple| m.id@).contains(id@),
{
    let ghost ids = items@.map_values(|m: MangaSimple| m.id@);
    let mut i: usize = 0;
    while i < items.len()
        invariant
            i <= items@.len(),
            ids == items@.map_values(|m: MangaSimple| m.id@),
            forall|k: int| 0 <= k < i ==> ids[k] != id@,
        decreases items@.len() - i,
    {
        if str_eq(items[i].id.as_str(), id.as_str()) {
            assert(ids[i as int] == id@);
            return true;
        }
        i += 1;
    }
    false
}

/// A listing card as `(id, title, cover)`.
pub open spec fn listing_card(rows: Seq<(Seq<char>, Seq<char>)>, thumbs: Seq<Seq<char>>, k: int) -> (
    Seq<char>,
    Seq<char>,
    Seq<char>,
) {
    (rows[k].0, rows[k].1, if k < thumbs.len() {
        thumbs[k]
    } else {
        Seq::empty()
    })
}

/// Adds the card of one more gallery link, given its `href` and title text,
/// to the cards read so far (with no cover yet).
pub fn add_row(items: &mut Vec<MangaSimple>, href: Option<String>, title: Option<String>)
    requires
        forall|k: int|
            0 <= k < old(items)@.len() ==> (#[trigger] old(items)@[k]).cover_url@.len() == 0
                && old(items)@[k].description is None,
    ensures
        rows_view(final(items)@) == next_rows(rows_view(old(items)@), opt_string(href), opt_string(title)),
        forall|k: int|
            0 <= k < final(items)@.len() ==> (#[trigger] final(items)@[k]).cover_url@.len() == 0
                && final(items)@[k].description is None,
{
    let ghost before = items@;
    assert(row_ids(rows_view(before)) =~= before.map_values(|m: MangaSimple| m.id@));
    if let Some(h) = href {
        if let Some(id) = gallery_id(h.as_str()) {
            if let Some(t) = title {
                if !seen_id(items, &id) {
                    let tt = trim_chars(&chars_of(t.as_str()));
                    items.push(MangaSimple { id, title: string_of(&tt), cover_url: String::new(), description: None });
                    assert(rows_view(items@) =~= rows_view(before).push((items@.last().id@, tt@)));
                }
            }
        }
    }
}

/// The cards with their covers: card `k` takes thumbnail `k` when there is
/// one.
pub fn with_covers(items: &Vec<MangaSimple>, thumbs: &Vec<String>) -> (r: Vec<MangaSimple>)
    ensures
        r@.len() == items@.len(),
        forall|k: int|
            0 <= k < items@.len() ==> ((#[trigger] r@[k]).id@, r@[k].title@, r@[k].cover_url@)
                == listing_card(rows_view(items@), strings_view(thumbs@), k) && r@[k].description is None,
{
    let ghost rv = rows_view(items@);
    let ghost tv = strings_view(thumbs@);
    let mut out: Vec<MangaSimple> = Vec::new();
    let mut k: usize = 0;
    while k < items.len()
        invariant
            k <= items@.len(),
            rv == rows_view(items@),
            tv == strings_view(thumbs@),
            out@.len() == k,
            forall|q: int|
                0 <= q < k ==> ((#[trigger] out@[q]).id@, out@[q].title@, out@[q].cover_url@)
                    == listing_card(rv, tv, q) && out@[q].description is None,
        decreases items@.len() - k,
    {
        let cover = if k < thumbs.len() {
            thumbs[k].clone()
        } else {
            String::new()
        };
        assert(rv[k as int] == (items@[k as int].id@, items@[k as int].title@));
        out.push(
            MangaSimple {
                id: items[k].id.clone(),
                title: items[k].title.clone(),
                cover_url: cover,
                description: None,
            },
        );
        k += 1;
    }
    out
}

/// A listing page in the compact table layout: a card per gallery (first
/// link wins), its cover the row thumbnail at the same position, and the
/// cursor of the next page.
pub fn parse_listing(html: &str) -> (r: Result<(Vec<MangaSimple>, Option<String>), SourceError>)
    ensures
        match selector_error(seq![ROW_LINK@, ROW_TITLE@, THUMB_IMG@]) {
            Some(m) => r matches Err(e) && is_parse_error(e, m),
            None => r matches Ok((items, cursor)) && {
                let rows = listing_rows(html@, match_count(html@, ROW_LINK@));
                &&& items@.len() == rows.len()
                &&& forall|k: int|
                    0 <= k < rows.len() ==> ((#[trigger] items@[k]).id@, items@[k].title@,
                    items@[k].cover_url@) == listing_card(rows, listing_thumbs(html@), k)
                        && items@[k].description is None
                &&& opt_string(cursor) == next_cursor_of(html@)
            },
        },
{
    let sels = vec![ROW_LINK, ROW_TITLE];
    assert(sels@.map_values(|s: &str| s@) =~= seq![ROW_LINK@, ROW_TITLE@]);
    match check_selectors(&sels) {
        Err(e) => {
            assert(selector_error(seq![ROW_LINK@, ROW_TITLE@, THUMB_IMG@]) == selector_error(
                seq![ROW_LINK@, ROW_TITLE@],
            )) by {
                reveal_with_fuel(selector_error, 3);
                assert(seq![ROW_LINK@, ROW_TITLE@, THUMB_IMG@].drop_first() =~= seq![ROW_TITLE@, THUMB_IMG@]);
                assert(seq![ROW_LINK@, ROW_TITLE@].drop_first() =~= seq![ROW_TITLE@]);
            }
            return Err(e);
        },
        Ok(_) => {},
    }
    let n = count_matches(html, ROW_LINK);
    let mut items: Vec<MangaSimple> = Vec::new();
    let mut i: usize = 0;
    while i < n
        invariant
            i <= n,
            n as nat == match_count(html@, ROW_LINK@),
            rows_view(items@) == listing_rows(html@, i as nat),
            forall|k: int|
                0 <= k < items@.len() ==> (#[trigger] items@[k]).cover_url@.len() == 0
                    && items@[k].description is None,
        decreases n - i,
    {
        let href = attr_of_match(html, ROW_LINK, i, "href");
        let title = if count_within(html, ROW_LINK, i, ROW_TITLE) > 0 {
            Some(text_within(html, ROW_LINK, i, ROW_TITLE, 0))
        } else {
            None
        };
        add_row(&mut items, href, title);
        i += 1;
    }
    let thumbs = match parse_thumbs(html) {
        Ok(t) => t,
        Err(e) => {
            assert(selector_error(seq![ROW_LINK@, ROW_TITLE@, THUMB_IMG@]) == selector_error(
                seq![THUMB_IMG@],
            )) by {
                reveal_with_fuel(selector_error, 3);
                assert(seq![ROW_LINK@, ROW_TITLE@, THUMB_IMG@].drop_first() =~= seq![ROW_TITLE@, THUMB_IMG@]);
                assert(seq![ROW_TITLE@, THUMB_IMG@].drop_first() =~= seq![THUMB_IMG@]);
            }
            return Err(e);
        },
    };
    let out = with_covers(&items, &thumbs);
    assert(selector_error(seq![ROW_LINK@, ROW_TITLE@, THUMB_IMG@]) is None) by {
        reveal_with_fuel(selector_error, 4);
        assert(seq![ROW_LINK@, ROW_TITLE@, THUMB_IMG@].drop_first() =~= seq![ROW_TITLE@, THUMB_IMG@]);
        assert(seq![ROW_TITLE@, THUMB_IMG@].drop_first() =~= seq![THUMB_IMG@]);
        assert(seq![ROW_LINK@, ROW_TITLE@].drop_first() =~= seq![ROW_TITLE@]);
        assert(seq![THUMB_IMG@].drop_first().len() == 0);
        assert(seq![ROW_TITLE@].drop_first().len() == 0);
    }
    Ok((out, next_cursor(html)))
}

/// The file count is the number written in the cell that ends at the first
/// ` pages</td>`: for a page made of any `pre` (markup included), the `>`
/// that opens that cell, a run of decimal digits `d` that fits in a `u32`,
/// ` pages</td>` and anything after, with no ` pages</td>` starting earlier,
/// the count is the number `d` spells.
pub proof fn lemma_file_count_reads_its_cell(pre: Seq<char>, d: Seq<char>, post: Seq<char>)
    requires
        d.len() > 0,
        all_digits(d),
        digits_value(d) <= u32::MAX,
        forall|j: int|
            0 <= j < pre.len() + 1 + d.len() ==> !#[trigger] matches_at(
                pre + ">"@ + d + " pages</td>"@ + post,
                " pages</td>"@,
                j,
            ),
    ensures
        file_count_of(pre + ">"@ + d + " pages</td>"@ + post) == Some(digits_value(d)),
{
    reveal_strlit(">");
    reveal_strlit(" pages</td>");
    let marker = " pages</td>"@;
    let html = pre + ">"@ + d + marker + post;
    let p: int = pre.len() as int;
    let idx: int = p + 1 + d.len();
    assert(html.subrange(idx, idx + marker.len()) =~= marker);
    assert(matches_at(html, marker, idx));
    assert(is_first_match_from(html, marker, 0, idx));
    lemma_find_from_is(html, marker, 0, idx);
    let head = html.take(idx);
    assert(head =~= pre + ">"@ + d);
    let gt = ">"@;
    assert(head.subrange(p, p + 1) =~= gt);
    assert(matches_at(head, gt, pre.len() as int));
    assert forall|j: int| pre.len() < j implies !#[trigger] matches_at(head, gt, j) by {
        if matches_at(head, gt, j) {
            assert(head.subrange(j, j + 1)[0] == head[j]);
            assert(head[j] == d[j - pre.len() - 1]);
            assert(is_digit(d[j - pre.len() - 1]));
        }
    }
    assert(is_last_match(head, gt, pre.len() as int));
    lemma_rfind_is(head, gt, pre.len() as int);
    assert(head.skip(p + 1) =~= d);
    assert(is_digit(d[0]) && is_digit(d.last()));
    assert(trim_start(d) == d);
    assert(trim_end(d) == d);
    assert(trim(d) == d);
}

/// A page without any ` pages</td>` has no file count.
pub proof fn lemma_no_cell_no_file_count(html: Seq<char>)
    requires
        forall|j: int| !#[trigger] matches_at(html, " pages</td>"@, j),
    ensures
        file_count_of(html) is None,
{
}

/// The same holds with whitespace around the number inside the cell: for a
/// page made of any `pre`, the `>` that opens the cell, whitespace `w1`, a
/// run of decimal digits `d` that fits in a `u32`, whitespace `w2`,
/// ` pages</td>` and anything after, with no ` pages</td>` starting earlier,
/// the count is the number `d` spells.
pub proof fn lemma_file_count_reads_its_padded_cell(
    pre: Seq<char>,
    w1: Seq<char>,
    d: Seq<char>,
    w2: Seq<char>,
    post: Seq<char>,
)
    requires
        d.len() > 0,
        all_digits(d),
        digits_value(d) <= u32::MAX,
        forall|j: int| 0 <= j < w1.len() ==> is_ws(#[trigger] w1[j]),
        forall|j: int| 0 <= j < w2.len() ==> is_ws(#[trigger] w2[j]),
        forall|j: int|
            0 <= j < pre.len() + 1 + w1.len() + d.len() + w2.len() ==> !#[trigger] matches_at(
                pre + ">"@ + w1 + d + w2 + " pages</td>"@ + post,
                " pages</td>"@,
                j,
            ),
    ensures
        file_count_of(pre + ">"@ + w1 + d + w2 + " pages</td>"@ + post) == Some(digits_value(d)),
{
    reveal_strlit(">");
    reveal_strlit(" pages</td>");
    let marker = " pages</td>"@;
    let cell = w1 + d + w2;
    let html = pre + ">"@ + w1 + d + w2 + marker + post;
    assert(html =~= pre + ">"@ + cell + marker + post);
    let p: int = pre.len() as int;
    let idx: int = p + 1 + cell.len();
    assert(html.subrange(idx, idx + marker.len()) =~= marker);
    assert(matches_at(html, marker, idx));
    assert(is_first_match_from(html, marker, 0, idx));
    lemma_find_from_is(html, marker, 0, idx);
    let head = html.take(idx);
    assert(head =~= pre + ">"@ + cell);
    let gt = ">"@;
    assert(head.subrange(p, p + 1) =~= gt);
    assert(matches_at(head, gt, p));
    assert forall|j: int| p < j implies !#[trigger] matches_at(head, gt, j) by {
        if matches_at(head, gt, j) {
            assert(head.subrange(j, j + 1)[0] == head[j]);
            assert(head[j] == cell[j - p - 1]);
            let k = j - p - 1;
            if k < w1.len() {
                assert(cell[k] == w1[k]);
                assert(is_ws(w1[k]));
            } else if k < w1.len() + d.len() {
                assert(cell[k] == d[k - w1.len()]);
                assert(is_digit(d[k - w1.len()]));
            } else {
                assert(cell[k] == w2[k - w1.len() - d.len()]);
                assert(is_ws(w2[k - w1.len() - d.len()]));
            }
        }
    }
    assert(is_last_match(head, gt, p));
    lemma_rfind_is(head, gt, p);
    assert(head.skip(p + 1) =~= cell);
    assert(is_digit(d[0]) && is_digit(d.last()));
    lemma_trim_padded(w1, d, w2);
}
} // verus!
