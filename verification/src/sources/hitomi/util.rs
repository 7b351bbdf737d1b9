//! Hitomi helpers: reading the `gg.js` image router, image URLs, `.nozomi`
//! id lists and their URLs, the gallery script's JSON, intersecting id
//! lists, and the popular-tag pages.
use vstd::prelude::*;
use std::collections::HashSet;
use vstd::string::StringSliceAdditionalSpecFns;
use crate::model::{
    SelectOption, SourceError, is_parse_error, parse_error,
};
use crate::pattern::{all_match_groups, captures, captures_all, first_match_groups, groups_view, matches_view};
use crate::text::{
    chars_of, dec, dec_chars, find, find_exec, rfind_exec, slice_chars, lines_exec, lines_of, opt_str, opt_string, owned,
    parse_u32_chars, parse_uint, pieces_from, push_all, push_str, replace_all, replace_all_exec,
    rfind, split_pieces, starts_with, starts_with_exec, str_eq, string_of, strip_trailing,
    strip_trailing_chars, trim, trim_chars, vecs_view,
};

verus! {

// ---------------------------------------------------------------------------
// The gg.js router
// ---------------------------------------------------------------------------

/// The `b` assignment: the path segment images live under.
pub const B_PATTERN: &'static str = "(?:var\\s+)?b\\s*[:=]\\s*['\"]([^'\"]+)['\"]";

/// The `o` assignment: whether listed routes take the second server.
pub const O_PATTERN: &'static str = "(?:var\\s+)?o\\s*=\\s*(\\d+)";

/// The `c` array of routes.
pub const C_PATTERN: &'static str = "(?:var\\s+)?c\\s*=\\s*\\[([\\d,\\s]+)\\]";

/// A `case N:` label of the router's switch.
pub const CASE_PATTERN: &'static str = "case\\s+(\\d+):";

/// A `c = N` assignment on one line.
pub const LINE_C_PATTERN: &'static str = "c\\s*=\\s*(\\d+)";

/// A `case N:` label on one line.
pub const LINE_CASE_PATTERN: &'static str = "case\\s*(\\d+):";

/// The image path segment used when the script names none.
pub open spec fn default_b() -> Seq<char> {
    "1763701202"@
}

/// The text of group 1 of a match, if it took part.
pub open spec fn group1(g: Seq<Option<Seq<char>>>) -> Option<Seq<char>> {
    if g.len() > 1 {
        g[1]
    } else {
        None
    }
}

/// A decimal number that fits `u32`.
pub open spec fn parsed_u32(s: Seq<char>) -> Option<u32> {
    match parse_uint(s, u32::MAX as nat) {
        Some(n) => Some(n as u32),
        None => None,
    }
}

/// The numbers among the trimmed pieces of a list.
pub open spec fn trimmed_numbers(ps: Seq<Seq<char>>) -> Seq<u32>
    decreases ps.len(),
{
    if ps.len() == 0 {
        Seq::empty()
    } else {
        let prev = trimmed_numbers(ps.drop_last());
        match parsed_u32(trim(ps.last())) {
            Some(n) => prev.push(n),
            None => prev,
        }
    }
}

/// The numbers group 1 of each match spells.
pub open spec fn capture_numbers(ms: Seq<Seq<Option<Seq<char>>>>) -> Seq<u32>
    decreases ms.len(),
{
    if ms.len() == 0 {
        Seq::empty()
    } else {
        let prev = capture_numbers(ms.drop_last());
        match group1(ms.last()) {
            Some(g) => match parsed_u32(g) {
                Some(n) => prev.push(n),
                None => prev,
            },
            None => prev,
        }
    }
}

/// The route a line of the script names: a `c = N` line or a `case N:`
/// line (a line starting with `case` also starts with `c`, so it is read as
/// an assignment).
pub open spec fn line_route(line: Seq<char>) -> Option<u32> {
    let t = trim(line);
    let groups = if starts_with(t, "c"@) {
        first_match_groups(LINE_C_PATTERN@, line)
    } else if starts_with(t, "case"@) {
        first_match_groups(LINE_CASE_PATTERN@, line)
    } else {
        None
    };
    match groups {
        Some(g) => match group1(g) {
            Some(v) => parsed_u32(v),
            None => None,
        },
        None => None,
    }
}

/// The routes the lines name, in order.
pub open spec fn line_numbers(lines: Seq<Seq<char>>) -> Seq<u32>
    decreases lines.len(),
{
    if lines.len() == 0 {
        Seq::empty()
    } else {
        let prev = line_numbers(lines.drop_last());
        match line_route(lines.last()) {
            Some(n) => prev.push(n),
            None => prev,
        }
    }
}

/// Group 1 of the first match of `pattern` in `text`.
pub open spec fn first_group_of(pattern: Seq<char>, text: Seq<char>) -> Option<Seq<char>> {
    match first_match_groups(pattern, text) {
        Some(g) => group1(g),
        None => None,
    }
}

/// The image path segment from the captured `b` value: without trailing
/// slashes, or the default when none was captured.
pub open spec fn b_of(captured: Option<Seq<char>>) -> Seq<char> {
    match captured {
        Some(v) => strip_trailing(v, '/'),
        None => default_b(),
    }
}

/// Whether the captured `o` value is `0`.
pub open spec fn o_of(captured: Option<Seq<char>>) -> bool {
    captured == Some("0"@)
}

/// The routes of a captured `c` array: its comma-separated numbers.
pub open spec fn list_numbers(captured: Option<Seq<char>>) -> Seq<u32> {
    match captured {
        Some(l) => trimmed_numbers(pieces_from(l, ","@, 0)),
        None => Seq::empty(),
    }
}

/// The routing list: the `c` array's routes, else the `case N:` labels',
/// else those named line by line.
pub open spec fn route_choice(listed: Seq<u32>, cases: Seq<u32>, lines: Seq<u32>) -> Seq<u32> {
    if listed.len() > 0 {
        listed
    } else if cases.len() > 0 {
        cases
    } else {
        lines
    }
}

/// The image path segment the script assigns to `b`, without trailing
/// slashes, or the default.
pub open spec fn gg_b(script: Seq<char>) -> Seq<char> {
    b_of(first_group_of(B_PATTERN@, script))
}

/// Whether the script assigns `o = 0`.
pub open spec fn gg_o(script: Seq<char>) -> bool {
    o_of(first_group_of(O_PATTERN@, script))
}

/// The routes of the script's `c` array.
pub open spec fn gg_list_routes(script: Seq<char>) -> Seq<u32> {
    list_numbers(first_group_of(C_PATTERN@, script))
}

/// The routing set: the `c` array, else the `case N:` labels, else the
/// routes named line by line.
pub open spec fn gg_routes(script: Seq<char>) -> Seq<u32> {
    route_choice(
        gg_list_routes(script),
        capture_numbers(all_match_groups(CASE_PATTERN@, script)),
        line_numbers(lines_of(script)),
    )
}

/// Decides which image server and path an image hash maps to, as read from
/// Hitomi's `gg.js` router.
pub struct HitomiResolver {
    b_val: String,
    o_val: bool,
    c_set: HashSet<u32>,
}

fn first_group(pattern: &str, text: &str) -> (r: Option<String>)
    ensures
        opt_string(r) == match first_match_groups(pattern@, text@) {
            Some(g) => group1(g),
            None => None,
        },
{
    match captures(pattern, text) {
        Some(g) => {
            if g.len() > 1 {
                match &g[1] {
                    Some(v) => Some(v.clone()),
                    None => None,
                }
            } else {
                None
            }
        },
        None => None,
    }
}

fn parse_u32_str(s: &Vec<char>) -> (r: Option<u32>)
    ensures
        r == parsed_u32(s@),
{
    match parse_u32_chars(s) {
        Some(n) => Some(n),
        None => None,
    }
}

/// The routes of a captured `c` array: its comma-separated numbers, in
/// order, pieces that are not numbers skipped.
pub fn routes_from_list(list: &str) -> (r: Vec<u32>)
    ensures
        r@ == list_numbers(Some(list@)),
{
    let mut out: Vec<u32> = Vec::new();
    let lv = chars_of(list);
    let comma = chars_of(",");
    proof {
        reveal_strlit(",");
    }
    let ps = split_pieces(&lv, &comma);
    let ghost pv = vecs_view(ps@);
    let mut i: usize = 0;
    while i < ps.len()
        invariant
            i <= ps@.len(),
            pv == vecs_view(ps@),
            out@ == trimmed_numbers(pv.take(i as int)),
        decreases ps@.len() - i,
    {
        let t = trim_chars(&ps[i]);
        assert(pv.take(i + 1).drop_last() =~= pv.take(i as int));
        match parse_u32_str(&t) {
            Some(n) => out.push(n),
            None => {},
        }
        i += 1;
    }
    assert(pv.take(ps@.len() as int) =~= pv);
    out
}

fn list_routes(script: &str) -> (r: Vec<u32>)
    ensures
        r@ == gg_list_routes(script@),
{
    match first_group(C_PATTERN, script) {
        Some(l) => routes_from_list(l.as_str()),
        None => Vec::new(),
    }
}

/// The routes the `case N:` matches name (one group list per match), in
/// order, labels that are not numbers skipped.
pub fn routes_from_cases(ms: &Vec<Vec<Option<String>>>) -> (r: Vec<u32>)
    ensures
        r@ == capture_numbers(matches_view(ms@)),
{
    let ghost mv = matches_view(ms@);
    let mut out: Vec<u32> = Vec::new();
    let mut i: usize = 0;
    while i < ms.len()
        invariant
            i <= ms@.len(),
            mv == matches_view(ms@),
            out@ == capture_numbers(mv.take(i as int)),
        decreases ms@.len() - i,
    {
        assert(mv.take(i + 1).drop_last() =~= mv.take(i as int));
        let g = &ms[i];
        assert(mv[i as int] == groups_view(g@));
        if g.len() > 1 {
            match &g[1] {
                Some(v) => {
                    let cs = chars_of(v.as_str());
                    match parse_u32_str(&cs) {
                        Some(n) => out.push(n),
                        None => {},
                    }
                },
                None => {},
            }
        }
        i += 1;
    }
    assert(mv.take(ms@.len() as int) =~= mv);
    out
}

fn case_routes(script: &str) -> (r: Vec<u32>)
    ensures
        r@ == capture_numbers(all_match_groups(CASE_PATTERN@, script@)),
{
    let ms = captures_all(CASE_PATTERN, script);
    routes_from_cases(&ms)
}

fn line_route_exec(line: &Vec<char>) -> (r: Option<u32>)
    ensures
        r == line_route(line@),
{
    let t = trim_chars(line);
    let c = chars_of("c");
    let case = chars_of("case");
    let text = string_of(line);
    let g = if starts_with_exec(&t, &c) {
        first_group(LINE_C_PATTERN, text.as_str())
    } else if starts_with_exec(&t, &case) {
        first_group(LINE_CASE_PATTERN, text.as_str())
    } else {
        None
    };
    match g {
        Some(v) => {
            let cs = chars_of(v.as_str());
            parse_u32_str(&cs)
        },
        None => None,
    }
}

fn line_routes(script: &str) -> (r: Vec<u32>)
    ensures
        r@ == line_numbers(lines_of(script@)),
{
    let sv = chars_of(script);
    let lines = lines_exec(&sv);
    let ghost lv = vecs_view(lines@);
    let mut out: Vec<u32> = Vec::new();
    let mut i: usize = 0;
    while i < lines.len()
        invariant
            i <= lines@.len(),
            lv == vecs_view(lines@),
            out@ == line_numbers(lv.take(i as int)),
        decreases lines@.len() - i,
    {
        assert(lv.take(i + 1).drop_last() =~= lv.take(i as int));
        match line_route_exec(&lines[i]) {
            Some(n) => out.push(n),
            None => {},
        }
        i += 1;
    }
    assert(lv.take(lines@.len() as int) =~= lv);
    out
}

/// The routes of `v` as a set.
fn route_set(v: &Vec<u32>) -> (r: HashSet<u32>)
    ensures
        r@ == v@.to_set(),
{
    broadcast use vstd::std_specs::hash::group_hash_axioms;

    let mut out: HashSet<u32> = HashSet::new();
    let mut i: usize = 0;
    while i < v.len()
        invariant
            i <= v@.len(),
            out@ == v@.take(i as int).to_set(),
        decreases v@.len() - i,
    {
        out.insert(v[i]);
        assert(v@.take(i + 1) =~= v@.take(i as int).push(v@[i as int]));
        proof {
            let pre = v@.take(i as int);
            Seq::<u32>::lemma_to_set_insert_commutes(pre, v@[i as int]);
            assert(pre + seq![v@[i as int]] =~= v@.take(i + 1));
        }
        i += 1;
    }
    assert(v@.take(v@.len() as int) =~= v@);
    out
}

impl HitomiResolver {
    /// The path segment images live under.
    pub closed spec fn b(&self) -> Seq<char> {
        self.b_val@
    }

    /// Whether listed routes take the second server.
    pub closed spec fn o(&self) -> bool {
        self.o_val
    }

    /// The listed routes.
    pub closed spec fn c(&self) -> Set<u32> {
        self.c_set@
    }

    /// The router from what `gg.js` captures: the `b` value (trailing
    /// slashes dropped, or the default), whether `o` is `0`, and the routing
    /// set, the first non-empty of the `c` array's routes, the `case` labels'
    /// and those read line by line. No route at all is a parse error.
    pub fn from_parts(
        b: Option<String>,
        o: Option<String>,
        listed: Vec<u32>,
        cases: Vec<u32>,
        lines: Vec<u32>,
    ) -> (r: Result<Self, SourceError>)
        ensures
            match r {
                Ok(res) => {
                    &&& route_choice(listed@, cases@, lines@).len() > 0
                    &&& res.b() == b_of(opt_string(b))
                    &&& res.o() == o_of(opt_string(o))
                    &&& res.c() == route_choice(listed@, cases@, lines@).to_set()
                },
                Err(e) => route_choice(listed@, cases@, lines@).len() == 0 && is_parse_error(
                    e,
                    "Failed to parse gg.js routing array"@,
                ),
            },
    {
        let b_val = match b {
            Some(v) => {
                let cs = chars_of(v.as_str());
                let t = strip_trailing_chars(&cs, '/');
                string_of(&t)
            },
            None => owned("1763701202"),
        };
        let o_val = match o {
            Some(v) => str_eq(v.as_str(), "0"),
            None => false,
        };
        let chosen = if listed.len() > 0 {
            listed
        } else if cases.len() > 0 {
            cases
        } else {
            lines
        };
        if chosen.len() == 0 {
            return Err(SourceError::Parse { message: owned("Failed to parse gg.js routing array") });
        }
        let routes = route_set(&chosen);
        Ok(HitomiResolver { b_val, o_val, c_set: routes })
    }

    /// Reads the router out of `gg.js`: the path segment `b`, the flag
    /// `o == 0`, and the routing set. A script that names no route is a
    /// parse error.
    pub fn parse_gg(script: &str) -> (r: Result<Self, SourceError>)
        ensures
            match r {
                Ok(res) => {
                    &&& gg_routes(script@).len() > 0
                    &&& res.b() == gg_b(script@)
                    &&& res.o() == gg_o(script@)
                    &&& res.c() == gg_routes(script@).to_set()
                },
                Err(e) => gg_routes(script@).len() == 0 && is_parse_error(
                    e,
                    "Failed to parse gg.js routing array"@,
                ),
            },
    {
        let b = first_group(B_PATTERN, script);
        let o = first_group(O_PATTERN, script);
        let listed = list_routes(script);
        let cases = if listed.len() == 0 {
            case_routes(script)
        } else {
            Vec::new()
        };
        let lines = if listed.len() == 0 && cases.len() == 0 {
            line_routes(script)
        } else {
            Vec::new()
        };
        Self::from_parts(b, o, listed, cases, lines)
    }

    /// Whether `route` is one of the listed routes.
    fn listed(&self, route: u32) -> (r: bool)
        ensures
            r == self.c().contains(route),
    {
        broadcast use vstd::std_specs::hash::group_hash_axioms;

        self.c_set.contains(&route)
    }

    /// The URL of an image or thumbnail under this router; none (empty) for
    /// a hash shorter than three bytes.
    pub open spec fn uri(
        &self,
        hash: Seq<char>,
        ext: Seq<char>,
        is_thumbnail: bool,
        is_small: bool,
    ) -> Seq<char> {
        if byte_len(hash) < 3 {
            Seq::empty()
        } else {
            image_uri(self.b(), self.o(), self.c(), hash, ext, is_thumbnail, is_small)
        }
    }

    /// The URL of an image (`is_thumbnail` false) or of its thumbnail, from
    /// the image's hash and file extension; a hash shorter than three bytes
    /// has none.
    pub fn get_image_uri(&self, hash: &str, ext: &str, is_thumbnail: bool, is_small: bool) -> (r:
        String)
        requires
            hash_splits_of(hash@),
        ensures
            r@ == self.uri(hash@, ext@, is_thumbnail, is_small),
            byte_len(hash@) == hash.spec_bytes().len(),
    {
        let hv = chars_of(hash);
        proof {
            lemma_encoded_len(hash@);
        }
        if below_three_bytes(&hv) {
            return String::new();
        }
        let (last, prev, route) = hash_route(&hv);
        let matched = self.listed(route) == self.o_val;
        let v = if !is_thumbnail {
            full_image_chars(ext, matched, self.b_val.as_str(), route, hash)
        } else {
            thumbnail_chars(matched, ext, is_small, last, &prev, hash)
        };
        string_of(&v)
    }
}

/// The route an image hash maps to: its last character followed by the two
/// bytes before it, read as a hex number (0 when they are not one).
pub open spec fn hash_route_of(hash: Seq<char>) -> u32 {
    match hex_of(seq![hash.last()] + hash_prev_two(hash)) {
        Some(v) => v as u32,
        None => 0,
    }
}

fn hash_route(hv: &Vec<char>) -> (r: (char, Vec<char>, u32))
    requires
        hash_tail_ok(hv@),
    ensures
        r.0 == hv@.last(),
        r.1@ == hash_prev_two(hv@),
        r.2 == hash_route_of(hv@),
{
    let n = hv.len();
    let last = hv[n - 1];
    let mut prev: Vec<char> = Vec::new();
    if char_width(hv[n - 2]) == 2 {
        prev.push(hv[n - 2]);
    } else {
        prev.push(hv[n - 3]);
        prev.push(hv[n - 2]);
    }
    assert(prev@ =~= hash_prev_two(hv@));
    let mut route_hex: Vec<char> = Vec::new();
    route_hex.push(last);
    push_all(&mut route_hex, &prev);
    assert(route_hex@ =~= seq![hv@.last()] + hash_prev_two(hv@));
    let route = match parse_hex(&route_hex) {
        Some(v) => v,
        None => 0,
    };
    (last, prev, route)
}

/// The URL of a full image on the `<ext initial><2 if matched, else 1>`
/// server, under `b` and the route.
pub open spec fn full_image_url(
    ext: Seq<char>,
    matched: bool,
    b: Seq<char>,
    route: u32,
    hash: Seq<char>,
) -> Seq<char> {
    let prefix = if ext.len() > 0 {
        ext[0]
    } else {
        'w'
    };
    "https://"@ + seq![prefix] + (if matched {
        "2"@
    } else {
        "1"@
    }) + ".gold-usergeneratedcontent.net/"@ + b + "/"@ + dec(route as nat) + "/"@ + hash + "."@
        + ext
}

/// The URL of a thumbnail on the `b` (matched) or `a` server, under the
/// hash's tail.
pub open spec fn thumbnail_url(
    matched: bool,
    ext: Seq<char>,
    is_small: bool,
    last: char,
    prev: Seq<char>,
    hash: Seq<char>,
) -> Seq<char> {
    "https://"@ + (if matched {
        "b"@
    } else {
        "a"@
    }) + "tn.gold-usergeneratedcontent.net/"@ + ext + (if is_small {
        "small"@
    } else {
        "big"@
    }) + "tn/"@ + seq![last] + "/"@ + prev + "/"@ + hash + "."@ + ext
}

fn full_image_chars(ext: &str, matched: bool, b: &str, route: u32, hash: &str) -> (v: Vec<char>)
    ensures
        v@ == full_image_url(ext@, matched, b@, route, hash@),
{
    let ev = chars_of(ext);
    let prefix = if ev.len() > 0 {
        ev[0]
    } else {
        'w'
    };
    let mut v: Vec<char> = Vec::new();
    push_str(&mut v, "https://");
    v.push(prefix);
    push_str(
        &mut v,
        if matched {
            "2"
        } else {
            "1"
        },
    );
    push_str(&mut v, ".gold-usergeneratedcontent.net/");
    push_str(&mut v, b);
    push_str(&mut v, "/");
    let d = dec_chars(route as u64);
    push_all(&mut v, &d);
    push_str(&mut v, "/");
    push_str(&mut v, hash);
    push_str(&mut v, ".");
    push_str(&mut v, ext);
    v
}

fn thumbnail_chars(
    matched: bool,
    ext: &str,
    is_small: bool,
    last: char,
    prev: &Vec<char>,
    hash: &str,
) -> (v: Vec<char>)
    ensures
        v@ == thumbnail_url(matched, ext@, is_small, last, prev@, hash@),
{
    let mut v: Vec<char> = Vec::new();
    push_str(&mut v, "https://");
    push_str(
        &mut v,
        if matched {
            "b"
        } else {
            "a"
        },
    );
    push_str(&mut v, "tn.gold-usergeneratedcontent.net/");
    push_str(&mut v, ext);
    push_str(
        &mut v,
        if is_small {
            "small"
        } else {
            "big"
        },
    );
    push_str(&mut v, "tn/");
    v.push(last);
    push_str(&mut v, "/");
    push_all(&mut v, prev);
    push_str(&mut v, "/");
    push_str(&mut v, hash);
    push_str(&mut v, ".");
    push_str(&mut v, ext);
    v
}

/// The number of bytes `c` takes in UTF-8.
pub open spec fn utf8_width(c: char) -> nat {
    if (c as u32) < 0x80 {
        1
    } else if (c as u32) < 0x800 {
        2
    } else if (c as u32) < 0x10000 {
        3
    } else {
        4
    }
}

/// The number of bytes `s` takes in UTF-8.
pub open spec fn byte_len(s: Seq<char>) -> nat
    decreases s.len(),
{
    if s.len() == 0 {
        0
    } else {
        byte_len(s.drop_last()) + utf8_width(s.last())
    }
}

proof fn lemma_byte_len_first(s: Seq<char>)
    requires
        s.len() > 0,
    ensures
        byte_len(s) == utf8_width(s[0]) + byte_len(s.drop_first()),
    decreases s.len(),
{
    if s.len() > 1 {
        lemma_byte_len_first(s.drop_last());
        assert(s.drop_last().drop_first() =~= s.drop_first().drop_last());
        assert(s.drop_first().last() == s.last());
        assert(s.drop_last()[0] == s[0]);
        assert(byte_len(s.drop_first()) == byte_len(s.drop_first().drop_last()) + utf8_width(
            s.last(),
        ));
    } else {
        assert(s.drop_first().len() == 0);
        assert(s.drop_last().len() == 0);
        assert(s.last() == s[0]);
        assert(byte_len(s) == byte_len(s.drop_last()) + utf8_width(s.last()));
    }
}

proof fn lemma_byte_len_prefix(s: Seq<char>, i: int)
    requires
        0 <= i <= s.len(),
    ensures
        byte_len(s.take(i)) <= byte_len(s),
    decreases s.len(),
{
    if i < s.len() {
        lemma_byte_len_prefix(s.drop_last(), i);
        assert(s.drop_last().take(i) =~= s.take(i));
    } else {
        assert(s.take(i) =~= s);
    }
}

/// `byte_len` is the length of the UTF-8 encoding (what `str::len` counts).
pub proof fn lemma_encoded_len(s: Seq<char>)
    ensures
        vstd::utf8::encode_utf8(s).len() == byte_len(s),
    decreases s.len(),
{
    if s.len() > 0 {
        lemma_byte_len_first(s);
        lemma_encoded_len(s.drop_first());
        lemma_scalar_len(s[0]);
    }
}

proof fn lemma_scalar_len(c: char)
    ensures
        vstd::utf8::encode_scalar(c as u32).len() == utf8_width(c),
{
    let v = c as u32;
    assert(v <= 0xD7FF || (0xE000 <= v && v <= 0x10FFFF));
}

fn below_three_bytes(hv: &Vec<char>) -> (r: bool)
    ensures
        r == (byte_len(hv@) < 3),
{
    let mut acc: u8 = 0;
    let mut i: usize = 0;
    while i < hv.len() && acc < 3
        invariant
            i <= hv@.len(),
            acc as nat == byte_len(hv@.take(i as int)),
            acc <= 6,
        decreases hv@.len() - i,
    {
        assert(hv@.take(i + 1).drop_last() =~= hv@.take(i as int));
        acc = acc + char_width(hv[i]);
        i += 1;
    }
    proof {
        lemma_byte_len_prefix(hv@, i as int);
        if i == hv@.len() {
            assert(hv@.take(i as int) =~= hv@);
        }
    }
    acc < 3
}

fn char_width(c: char) -> (r: u8)
    ensures
        r as nat == utf8_width(c),
{
    let v = c as u32;
    if v < 0x80 {
        1
    } else if v < 0x800 {
        2
    } else if v < 0x10000 {
        3
    } else {
        4
    }
}

/// A hash the router can read: shorter than three bytes, or with its last
/// three bytes splitting at character boundaries.
pub open spec fn hash_splits_of(h: Seq<char>) -> bool {
    byte_len(h) < 3 || hash_tail_ok(h)
}

/// Whether the router can read `hash` (see `hash_splits_of`); the router
/// cannot slice any other.
pub fn hash_splits(hash: &str) -> (r: bool)
    ensures
        r == hash_splits_of(hash@),
{
    let hv = chars_of(hash);
    if below_three_bytes(&hv) {
        return true;
    }
    let n = hv.len();
    if n < 2 || char_width(hv[n - 1]) != 1 {
        return false;
    }
    char_width(hv[n - 2]) == 2 || (n >= 3 && char_width(hv[n - 2]) == 1 && char_width(hv[n - 3])
        == 1)
}

/// The last three bytes of a hash split into its last byte and the two
/// before it at character boundaries: the last character is one byte, and
/// the one before is either two bytes or one byte following a one-byte
/// character.
pub open spec fn hash_tail_ok(h: Seq<char>) -> bool {
    let n = h.len();
    &&& n >= 2
    &&& utf8_width(h[n - 1]) == 1
    &&& (utf8_width(h[n - 2]) == 2 || (n >= 3 && utf8_width(h[n - 2]) == 1 && utf8_width(
        h[n - 3],
    ) == 1))
}

/// The characters of the two bytes before a hash's last byte.
pub open spec fn hash_prev_two(h: Seq<char>) -> Seq<char> {
    let n = h.len();
    if utf8_width(h[n - 2]) == 2 {
        seq![h[n - 2]]
    } else {
        seq![h[n - 3], h[n - 2]]
    }
}

pub open spec fn hex_value(c: char) -> Option<nat> {
    if '0' <= c && c <= '9' {
        Some((c as nat - '0' as nat) as nat)
    } else if 'a' <= c && c <= 'f' {
        Some((c as nat - 'a' as nat + 10) as nat)
    } else if 'A' <= c && c <= 'F' {
        Some((c as nat - 'A' as nat + 10) as nat)
    } else {
        None
    }
}

/// The number hex digits spell, if they all are hex digits.
pub open spec fn hex_digits_value(s: Seq<char>) -> Option<nat>
    decreases s.len(),
{
    if s.len() == 0 {
        Some(0)
    } else {
        match (hex_digits_value(s.drop_last()), hex_value(s.last())) {
            (Some(a), Some(d)) => Some(a * 16 + d),
            _ => None,
        }
    }
}

/// std's `u32::from_str_radix(s, 16)`, for at most four characters: an
/// optional `+` and at least one hex digit.
pub open spec fn hex_of(s: Seq<char>) -> Option<nat> {
    let d = if s.len() > 0 && s[0] == '+' {
        s.drop_first()
    } else {
        s
    };
    if d.len() == 0 {
        None
    } else {
        hex_digits_value(d)
    }
}

fn hex_digit(c: char) -> (r: Option<u32>)
    ensures
        match hex_value(c) {
            Some(v) => r == Some(v as u32),
            None => r is None,
        },
{
    if '0' <= c && c <= '9' {
        Some(c as u32 - '0' as u32)
    } else if 'a' <= c && c <= 'f' {
        Some(c as u32 - 'a' as u32 + 10)
    } else if 'A' <= c && c <= 'F' {
        Some(c as u32 - 'A' as u32 + 10)
    } else {
        None
    }
}

spec fn pow16(n: nat) -> nat
    decreases n,
{
    if n == 0 {
        1
    } else {
        16 * pow16((n - 1) as nat)
    }
}

/// Reads an unsigned hex number of at most three digits.
fn parse_hex(s: &Vec<char>) -> (r: Option<u32>)
    requires
        s@.len() <= 3,
    ensures
        match hex_of(s@) {
            Some(v) => r == Some(v as u32),
            None => r is None,
        },
{
    let start: usize = if s.len() > 0 && s[0] == '+' {
        1
    } else {
        0
    };
    let ghost d = s@.skip(start as int);
    assert(d =~= (if s@.len() > 0 && s@[0] == '+' {
        s@.drop_first()
    } else {
        s@
    }));
    if start >= s.len() {
        return None;
    }
    let mut value: u32 = 0;
    let mut i = start;
    while i < s.len()
        invariant
            start <= i <= s@.len() <= 3,
            d == s@.skip(start as int),
            d.len() > 0,
            hex_of(s@) == hex_digits_value(d),
            hex_digits_value(s@.subrange(start as int, i as int)) == Some(value as nat),
            value < pow16((i - start) as nat),
        decreases s@.len() - i,
    {
        let ghost pre = s@.subrange(start as int, i as int);
        let ghost next = s@.subrange(start as int, i + 1);
        assert(next.drop_last() =~= pre);
        match hex_digit(s[i]) {
            Some(h) => {
                proof {
                    reveal_with_fuel(pow16, 4);
                }
                value = value * 16 + h;
            },
            None => {
                proof {
                    assert(d[i - start] == s@[i as int]);
                    lemma_hex_none(d, i - start);
                }
                return None;
            },
        }
        i += 1;
    }
    assert(s@.subrange(start as int, s@.len() as int) =~= d);
    Some(value)
}

proof fn lemma_hex_none(d: Seq<char>, k: int)
    requires
        0 <= k < d.len(),
        hex_value(d[k]) is None,
    ensures
        hex_digits_value(d) is None,
    decreases d.len(),
{
    if k < d.len() - 1 {
        lemma_hex_none(d.drop_last(), k);
    }
}

/// The URL of an image or thumbnail, for a hash whose last three bytes split
/// cleanly: an image is "matched" when whether its route is listed agrees
/// with `o`.
pub open spec fn image_uri(
    b: Seq<char>,
    o: bool,
    c: Set<u32>,
    hash: Seq<char>,
    ext: Seq<char>,
    is_thumbnail: bool,
    is_small: bool,
) -> Seq<char> {
    let matched = c.contains(hash_route_of(hash)) == o;
    if !is_thumbnail {
        full_image_url(ext, matched, b, hash_route_of(hash), hash)
    } else {
        thumbnail_url(matched, ext, is_small, hash.last(), hash_prev_two(hash), hash)
    }
}

// ---------------------------------------------------------------------------
// Nozomi id lists
// ---------------------------------------------------------------------------

/// The host serving the id lists, gallery scripts and `gg.js`.
pub const LTN_URL: &'static str = "https://ltn.gold-usergeneratedcontent.net";

/// The URL of a `.nozomi` id list: a popularity ranking when `sort` is given
/// (`day` naming today's), else a tag's list when a tag type and its encoded
/// name are given (gendered tags live under `tag`, a language has an index
/// of its own), else the language's index.
pub open spec fn nozomi_url(
    tag_type: Option<Seq<char>>,
    encoded_name: Option<Seq<char>>,
    language: Seq<char>,
    sort: Option<Seq<char>>,
) -> Seq<char> {
    match sort {
        Some(s) => LTN_URL@ + "/popular/"@ + (if s == "day"@ {
            "today"@
        } else {
            s
        }) + "-"@ + language + ".nozomi"@,
        None => match (tag_type, encoded_name) {
            (Some(t), Some(n)) => if t == "male"@ || t == "female"@ {
                LTN_URL@ + "/n/tag/"@ + t + ":"@ + n + "-"@ + language + ".nozomi"@
            } else if t == "language"@ {
                LTN_URL@ + "/n/index-"@ + n + ".nozomi"@
            } else {
                LTN_URL@ + "/n/"@ + t + "/"@ + n + "-"@ + language + ".nozomi"@
            },
            _ => LTN_URL@ + "/n/index-"@ + language + ".nozomi"@,
        },
    }
}

/// A tag name as it is looked up: underscores read as spaces, surrounding
/// whitespace dropped. The URL carries it query-encoded.
pub open spec fn nozomi_tag_name_of(name: Seq<char>) -> Seq<char> {
    trim(replace_all(name, "_"@, " "@))
}

/// The form of a tag name that goes (query-encoded) into its id list's URL.
pub fn nozomi_tag_name(name: &str) -> (r: String)
    ensures
        r@ == nozomi_tag_name_of(name@),
{
    let v = chars_of(name);
    let u = chars_of("_");
    let sp = chars_of(" ");
    proof {
        reveal_strlit("_");
    }
    let replaced = replace_all_exec(&v, &u, &sp);
    let t = trim_chars(&replaced);
    string_of(&t)
}

/// The URL of the `.nozomi` id list to read; `tag_name` is the tag's name
/// already in the form `nozomi_tag_name` gives and query-encoded.
pub fn get_nozomi_url(
    tag_type: Option<&str>,
    tag_name: Option<&str>,
    language: &str,
    sort: Option<&str>,
) -> (r: String)
    ensures
        r@ == nozomi_url(opt_str(tag_type), opt_str(tag_name), language@, opt_str(sort)),
{
    let mut v: Vec<char> = Vec::new();
    push_str(&mut v, LTN_URL);
    match sort {
        Some(s) => {
            push_str(&mut v, "/popular/");
            if str_eq(s, "day") {
                push_str(&mut v, "today");
            } else {
                push_str(&mut v, s);
            }
            push_str(&mut v, "-");
            push_str(&mut v, language);
            push_str(&mut v, ".nozomi");
        },
        None => {
            match (tag_type, tag_name) {
                (Some(t), Some(n)) => {
                    if str_eq(t, "male") || str_eq(t, "female") {
                        push_str(&mut v, "/n/tag/");
                        push_str(&mut v, t);
                        push_str(&mut v, ":");
                        push_str(&mut v, n);
                        push_str(&mut v, "-");
                        push_str(&mut v, language);
                        push_str(&mut v, ".nozomi");
                    } else if str_eq(t, "language") {
                        push_str(&mut v, "/n/index-");
                        push_str(&mut v, n);
                        push_str(&mut v, ".nozomi");
                    } else {
                        push_str(&mut v, "/n/");
                        push_str(&mut v, t);
                        push_str(&mut v, "/");
                        push_str(&mut v, n);
                        push_str(&mut v, "-");
                        push_str(&mut v, language);
                        push_str(&mut v, ".nozomi");
                    }
                },
                _ => {
                    push_str(&mut v, "/n/index-");
                    push_str(&mut v, language);
                    push_str(&mut v, ".nozomi");
                },
            }
        },
    }
    string_of(&v)
}

/// The `Range` header value asking for the ids from `start_index` up to
/// (not including) `end_index`: four bytes each.
pub fn nozomi_range(start_index: usize, end_index: usize) -> (r: String)
    requires
        1 <= end_index,
        end_index * 4 <= usize::MAX,
        start_index * 4 <= usize::MAX,
    ensures
        r@ == "bytes="@ + dec((start_index * 4) as nat) + "-"@ + dec((end_index * 4 - 1) as nat),
{
    let byte_start = start_index * 4;
    let byte_end = end_index * 4 - 1;
    let mut v: Vec<char> = Vec::new();
    push_str(&mut v, "bytes=");
    let a = dec_chars(byte_start as u64);
    push_all(&mut v, &a);
    push_str(&mut v, "-");
    let b = dec_chars(byte_end as u64);
    push_all(&mut v, &b);
    string_of(&v)
}

/// The big-endian `u32` in the `k`-th group of four bytes.
pub open spec fn be_u32_at(b: Seq<u8>, k: int) -> nat {
    b[4 * k] as nat * 16777216 + b[4 * k + 1] as nat * 65536 + b[4 * k + 2] as nat * 256 + b[4
        * k + 3] as nat
}

/// The ids of a `.nozomi` list: each whole group of four bytes read as a
/// big-endian `u32`; a trailing partial group is ignored.
pub open spec fn nozomi_ids(b: Seq<u8>) -> Seq<u32> {
    Seq::new(b.len() / 4, |k: int| be_u32_at(b, k) as u32)
}

/// Reads the ids of a `.nozomi` list.
pub fn parse_nozomi(bytes: &[u8]) -> (r: Vec<u32>)
    ensures
        r@ == nozomi_ids(bytes@),
{
    let len = bytes.len();
    let n = len / 4;
    let mut ids: Vec<u32> = Vec::new();
    let mut k: usize = 0;
    while k < n
        invariant
            len == bytes@.len(),
            n == bytes@.len() / 4,
            k <= n,
            ids@ =~= nozomi_ids(bytes@).take(k as int),
        decreases n - k,
    {
        assert(4 * k + 3 < bytes@.len()) by (nonlinear_arith)
            requires
                k < n,
                n == bytes@.len() / 4,
        ;
        let base = 4 * k;
        let id: u32 = (bytes[base] as u32) * 16777216 + (bytes[base + 1] as u32) * 65536 + (
        bytes[base + 2] as u32) * 256 + (bytes[base + 3] as u32);
        ids.push(id);
        k += 1;
    }
    ids
}

/// Where the JSON object of a gallery script starts and ends: its first `{`
/// and its last `}`, the end after the start.
pub open spec fn gallery_json_span(raw: Seq<char>) -> Option<(int, int)> {
    match (find(raw, "{"@), rfind(raw, "}"@)) {
        (Some(s), Some(e)) => if e > s {
            Some((s, e))
        } else {
            None
        },
        _ => None,
    }
}

/// The JSON object a gallery script assigns, from its first `{` to its last
/// `}`; a script without one is a parse error.
pub fn extract_gallery_json(raw_js: &str) -> (r: Result<String, SourceError>)
    ensures
        match gallery_json_span(raw_js@) {
            Some((s, e)) => r matches Ok(j) && j@ == raw_js@.subrange(s, e + 1),
            None => r matches Err(err) && is_parse_error(
                err,
                "Failed to extract JSON from galleryinfo.js"@,
            ),
        },
{
    let v = chars_of(raw_js);
    let open = chars_of("{");
    let close = chars_of("}");
    proof {
        reveal_strlit("}");
    }
    let _n = v.len();
    let start = find_exec(&v, &open);
    let end = rfind_exec(&v, &close);
    match (start, end) {
        (Some(s), Some(e)) => {
            if e > s {
                let j = slice_chars(&v, s, e + 1);
                return Ok(string_of(&j));
            }
        },
        _ => {},
    }
    Err(parse_error("Failed to extract JSON from galleryinfo.js"))
}

// ---------------------------------------------------------------------------
// Intersecting id lists
// ---------------------------------------------------------------------------

/// The id lists, each as a sequence.
pub open spec fn lists_view(lists: Seq<Vec<u32>>) -> Seq<Seq<u32>> {
    lists.map_values(|l: Vec<u32>| l@)
}

/// There is at least one list, and `x` occurs in every one.
pub open spec fn in_every(lists: Seq<Seq<u32>>, x: u32) -> bool {
    lists.len() > 0 && forall|k: int| 0 <= k < lists.len() ==> #[trigger] lists[k].contains(x)
}

/// Every id is larger than the ones after it.
pub open spec fn strictly_descending(s: Seq<u32>) -> bool {
    forall|i: int, j: int| 0 <= i < j < s.len() ==> s[i] > s[j]
}

/// Two strictly descending id lists with the same ids are the same list: so
/// the intersection of id lists is one list whatever order the lists come
/// in.
pub proof fn lemma_descending_lists_agree(a: Seq<u32>, b: Seq<u32>)
    requires
        strictly_descending(a),
        strictly_descending(b),
        forall|x: u32| a.contains(x) <==> b.contains(x),
    ensures
        a == b,
    decreases a.len(),
{
    if a.len() == 0 {
        if b.len() > 0 {
            assert(b.contains(b[0]));
        }
        assert(a =~= b);
    } else {
        assert(a.contains(a[0]));
        assert(b.len() > 0);
        assert(b.contains(b[0]));
        let i = choose|i: int| 0 <= i < b.len() && b[i] == a[0];
        let j = choose|j: int| 0 <= j < a.len() && a[j] == b[0];
        if i > 0 {
            assert(b[0] > b[i]);
            assert(a[0] >= a[j]);
        }
        assert(a[0] == b[0]);
        let ta = a.drop_first();
        let tb = b.drop_first();
        assert forall|x: u32| ta.contains(x) <==> tb.contains(x) by {
            if ta.contains(x) {
                let k = choose|k: int| 0 <= k < ta.len() && ta[k] == x;
                assert(a[k + 1] == x && a.contains(x));
                let m = choose|m: int| 0 <= m < b.len() && b[m] == x;
                if m == 0 {
                    assert(a[0] > a[k + 1]);
                }
                assert(tb[m - 1] == x);
            }
            if tb.contains(x) {
                let k = choose|k: int| 0 <= k < tb.len() && tb[k] == x;
                assert(b[k + 1] == x && b.contains(x));
                let m = choose|m: int| 0 <= m < a.len() && a[m] == x;
                if m == 0 {
                    assert(b[0] > b[k + 1]);
                }
                assert(ta[m - 1] == x);
            }
        }
        lemma_descending_lists_agree(ta, tb);
        assert(a =~= seq![a[0]] + ta);
        assert(b =~= seq![b[0]] + tb);
    }
}

/// Each list of ids as a set.
fn sets_of(lists: &Vec<Vec<u32>>) -> (r: Vec<HashSet<u32>>)
    ensures
        r@.len() == lists@.len(),
        forall|m: int| 0 <= m < r@.len() ==> (#[trigger] r@[m])@ == lists@[m]@.to_set(),
{
    let mut out: Vec<HashSet<u32>> = Vec::new();
    let mut k: usize = 0;
    while k < lists.len()
        invariant
            k <= lists@.len(),
            out@.len() == k,
            forall|m: int| 0 <= m < k ==> (#[trigger] out@[m])@ == lists@[m]@.to_set(),
        decreases lists@.len() - k,
    {
        out.push(route_set(&lists[k]));
        k += 1;
    }
    out
}

fn in_all_lists(lists: &Vec<Vec<u32>>, sets: &Vec<HashSet<u32>>, x: u32) -> (r: bool)
    requires
        sets@.len() == lists@.len(),
        forall|m: int| 0 <= m < sets@.len() ==> (#[trigger] sets@[m])@ == lists@[m]@.to_set(),
    ensures
        r == in_every(lists_view(lists@), x),
{
    broadcast use vstd::std_specs::hash::group_hash_axioms;

    if lists.len() == 0 {
        return false;
    }
    let mut k: usize = 0;
    while k < sets.len()
        invariant
            k <= lists@.len(),
            lists@.len() > 0,
            sets@.len() == lists@.len(),
            forall|m: int| 0 <= m < sets@.len() ==> (#[trigger] sets@[m])@ == lists@[m]@.to_set(),
            forall|m: int| 0 <= m < k ==> #[trigger] lists_view(lists@)[m].contains(x),
        decreases lists@.len() - k,
    {
        assert(sets@[k as int]@ == lists@[k as int]@.to_set());
        assert(lists_view(lists@)[k as int] == lists@[k as int]@);
        if !sets[k].contains(&x) {
            return false;
        }
        k += 1;
    }
    true
}

fn insert_descending(v: &mut Vec<u32>, x: u32)
    requires
        strictly_descending(old(v)@),
        !old(v)@.contains(x),
    ensures
        strictly_descending(final(v)@),
        forall|y: u32| final(v)@.contains(y) <==> (old(v)@.contains(y) || y == x),
{
    let mut p: usize = 0;
    while p < v.len() && v[p] > x
        invariant
            p <= v@.len(),
            forall|q: int| 0 <= q < p ==> v@[q] > x,
        decreases v@.len() - p,
    {
        p += 1;
    }
    let ghost before = v@;
    if p < v.len() {
        assert(before[p as int] != x);
    }
    v.insert(p, x);
    assert forall|y: u32| v@.contains(y) <==> (before.contains(y) || y == x) by {
        if v@.contains(y) {
            let k = choose|k: int| 0 <= k < v@.len() && v@[k] == y;
            if k < p {
                assert(before[k] == y);
            } else if k > p {
                assert(before[k - 1] == y);
            }
        }
        if before.contains(y) {
            let k = choose|k: int| 0 <= k < before.len() && before[k] == y;
            if k < p {
                assert(v@[k] == y);
            } else {
                assert(v@[k + 1] == y);
            }
        }
        if y == x {
            assert(v@[p as int] == y);
        }
    }
}

/// The ids that occur in every list, largest (newest) first, each once; no
/// ids for no lists.
pub fn intersect_ids(lists: Vec<Vec<u32>>) -> (r: Vec<u32>)
    ensures
        strictly_descending(r@),
        forall|x: u32| r@.contains(x) <==> in_every(lists_view(lists@), x),
{
    broadcast use vstd::std_specs::hash::group_hash_axioms;

    let mut out: Vec<u32> = Vec::new();
    if lists.len() == 0 {
        return out;
    }
    let sets = sets_of(&lists);
    let mut seen: HashSet<u32> = HashSet::new();
    let first = &lists[0];
    let mut i: usize = 0;
    while i < first.len()
        invariant
            lists@.len() > 0,
            sets@.len() == lists@.len(),
            forall|m: int| 0 <= m < sets@.len() ==> (#[trigger] sets@[m])@ == lists@[m]@.to_set(),
            seen@ == out@.to_set(),
            first@ == lists_view(lists@)[0],
            i <= first@.len(),
            strictly_descending(out@),
            forall|y: u32|
                out@.contains(y) <==> (#[trigger] first@.take(i as int).contains(y) && in_every(
                    lists_view(lists@),
                    y,
                )),
        decreases first@.len() - i,
    {
        let x = first[i];
        let ghost pre = first@.take(i as int);
        let ghost next = first@.take(i + 1);
        assert forall|y: u32| next.contains(y) <==> (pre.contains(y) || y == x) by {
            if next.contains(y) {
                let k = choose|k: int| 0 <= k < next.len() && next[k] == y;
                if k < i {
                    assert(pre[k] == y);
                }
            }
            if pre.contains(y) {
                let k = choose|k: int| 0 <= k < pre.len() && pre[k] == y;
                assert(next[k] == y);
            }
            if y == x {
                assert(next[i as int] == y);
            }
        }
        if in_all_lists(&lists, &sets, x) && !seen.contains(&x) {
            insert_descending(&mut out, x);
            seen.insert(x);
            assert(seen@ =~= out@.to_set());
        }
        i += 1;
    }
    assert(first@.take(first@.len() as int) =~= first@);
    assert forall|y: u32| out@.contains(y) <==> in_every(lists_view(lists@), y) by {
        assert(first@.take(i as int) =~= first@);
        assert(out@.contains(y) <==> (first@.take(i as int).contains(y) && in_every(
            lists_view(lists@),
            y,
        )));
        if in_every(lists_view(lists@), y) {
            assert(lists_view(lists@)[0].contains(y));
        }
    }
    out
}

// ---------------------------------------------------------------------------
// Popular tags
// ---------------------------------------------------------------------------

/// A tag entry of an `alltags-*.html` index page: the tag's link, its name
/// and its gallery count.
pub const TAG_PATTERN: &'static str = "href=\"(?:https?://hitomi\\.la)?/tag/([^\"]+)-all\\.html\"[^>]*>([^<]+)</a>\\s*\\(([\\d,]+)\\)";

/// The initials of the tag index pages read for the popular tags.
pub const TAG_PAGE_LETTERS: &'static str = "abcdefghmsty";

/// A tag read off an index page.
pub struct ParsedTag {
    pub id: String,
    pub display: String,
    pub count: u32,
}

impl View for ParsedTag {
    type V = (Seq<char>, Seq<char>, u32);

    open spec fn view(&self) -> (Seq<char>, Seq<char>, u32) {
        (self.id@, self.display@, self.count)
    }
}

/// The views of the tags.
pub open spec fn tags_view(s: Seq<ParsedTag>) -> Seq<(Seq<char>, Seq<char>, u32)> {
    s.map_values(|t: ParsedTag| t@)
}

/// The text of group `k` of a match, empty when it did not take part.
pub open spec fn group_or_empty(m: Seq<Option<Seq<char>>>, k: int) -> Seq<char> {
    if 0 <= k < m.len() {
        match m[k] {
            Some(v) => v,
            None => Seq::empty(),
        }
    } else {
        Seq::empty()
    }
}

/// The tag an index entry describes: its id with `%3A` and `%20` decoded, its
/// trimmed name, and its count with the thousands separators dropped (0 when
/// that is no `u32`).
pub open spec fn tag_of_match(m: Seq<Option<Seq<char>>>) -> (Seq<char>, Seq<char>, u32) {
    let id = replace_all(replace_all(group_or_empty(m, 1), "%3A"@, ":"@), "%20"@, " "@);
    let display = trim(group_or_empty(m, 2));
    let count: u32 = match parsed_u32(replace_all(group_or_empty(m, 3), ","@, Seq::empty())) {
        Some(n) => n,
        None => 0,
    };
    (id, display, count)
}

/// The tags of the index entries that have more than 100 galleries, in page
/// order.
pub open spec fn popular_tags(ms: Seq<Seq<Option<Seq<char>>>>) -> Seq<(Seq<char>, Seq<char>, u32)>
    decreases ms.len(),
{
    if ms.len() == 0 {
        Seq::empty()
    } else {
        let prev = popular_tags(ms.drop_last());
        let t = tag_of_match(ms.last());
        if t.2 > 100 {
            prev.push(t)
        } else {
            prev
        }
    }
}

fn group_chars(g: &Vec<Option<String>>, k: usize) -> (r: Vec<char>)
    ensures
        r@ == group_or_empty(groups_view(g@), k as int),
{
    if k < g.len() {
        match &g[k] {
            Some(v) => chars_of(v.as_str()),
            None => Vec::new(),
        }
    } else {
        Vec::new()
    }
}

fn tag_from_match(g: &Vec<Option<String>>) -> (r: ParsedTag)
    ensures
        r@ == tag_of_match(groups_view(g@)),
{
    let raw = group_chars(g, 1);
    let enc_colon = chars_of("%3A");
    let colon = chars_of(":");
    let enc_space = chars_of("%20");
    let space = chars_of(" ");
    let comma = chars_of(",");
    let nothing: Vec<char> = Vec::new();
    proof {
        reveal_strlit("%3A");
        reveal_strlit("%20");
        reveal_strlit(",");
    }
    let id1 = replace_all_exec(&raw, &enc_colon, &colon);
    let id = replace_all_exec(&id1, &enc_space, &space);
    let display = trim_chars(&group_chars(g, 2));
    let digits = replace_all_exec(&group_chars(g, 3), &comma, &nothing);
    let count = match parse_u32_str(&digits) {
        Some(n) => n,
        None => 0,
    };
    ParsedTag { id: string_of(&id), display: string_of(&display), count }
}

/// The tags of an index page's matches (one group list per match) that have
/// more than 100 galleries, in order.
#[verifier::spinoff_prover]
#[verifier::rlimit(40)]
pub fn tags_from_matches(ms: &Vec<Vec<Option<String>>>) -> (r: Vec<ParsedTag>)
    ensures
        tags_view(r@) == popular_tags(matches_view(ms@)),
{
    let ghost mv = matches_view(ms@);
    let mut out: Vec<ParsedTag> = Vec::new();
    let mut i: usize = 0;
    while i < ms.len()
        invariant
            i <= ms@.len(),
            mv == matches_view(ms@),
            tags_view(out@) == popular_tags(mv.take(i as int)),
        decreases ms@.len() - i,
    {
        assert(mv.take(i + 1).drop_last() =~= mv.take(i as int));
        assert(mv[i as int] == groups_view(ms@[i as int]@));
        let t = tag_from_match(&ms[i]);
        if t.count > 100 {
            let ghost before = out@;
            out.push(t);
            assert(tags_view(out@) =~= tags_view(before).push(t@));
        }
        i += 1;
    }
    assert(mv.take(ms@.len() as int) =~= mv);
    out
}

/// The tags an index page lists with more than 100 galleries, in page
/// order.
pub fn parse_tag_page(html: &str) -> (r: Vec<ParsedTag>)
    ensures
        tags_view(r@) == popular_tags(all_match_groups(TAG_PATTERN@, html@)),
{
    let ms = captures_all(TAG_PATTERN, html);
    tags_from_matches(&ms)
}

/// `t` placed into a list ordered by descending count: after every entry
/// whose count is at least its own.
pub open spec fn insert_by_count(
    s: Seq<(Seq<char>, Seq<char>, u32)>,
    t: (Seq<char>, Seq<char>, u32),
) -> Seq<(Seq<char>, Seq<char>, u32)>
    decreases s.len(),
{
    if s.len() == 0 {
        seq![t]
    } else if s[0].2 < t.2 {
        seq![t] + s
    } else {
        seq![s[0]] + insert_by_count(s.drop_first(), t)
    }
}

/// The tags ordered by descending count, tags of equal count keeping their
/// order (a stable sort).
pub open spec fn sort_by_count(s: Seq<(Seq<char>, Seq<char>, u32)>) -> Seq<
    (Seq<char>, Seq<char>, u32),
>
    decreases s.len(),
{
    if s.len() == 0 {
        s
    } else {
        insert_by_count(sort_by_count(s.drop_last()), s.last())
    }
}

proof fn lemma_insert_at(s: Seq<(Seq<char>, Seq<char>, u32)>, t: (Seq<char>, Seq<char>, u32), p: int)
    requires
        0 <= p <= s.len(),
        forall|q: int| 0 <= q < p ==> s[q].2 >= t.2,
        p < s.len() ==> s[p].2 < t.2,
    ensures
        insert_by_count(s, t) == s.insert(p, t),
    decreases s.len(),
{
    if s.len() == 0 {
        assert(s.insert(p, t) =~= seq![t]);
    } else if p == 0 {
        assert(s.insert(p, t) =~= seq![t] + s);
    } else {
        let r = s.drop_first();
        assert forall|q: int| 0 <= q < p - 1 implies r[q].2 >= t.2 by {
            assert(r[q] == s[q + 1]);
        }
        lemma_insert_at(r, t, p - 1);
        assert(s.insert(p, t) =~= seq![s[0]] + r.insert(p - 1, t));
    }
}

/// The label a tag is offered under: gendered tags carry their sign.
pub open spec fn tag_label(t: (Seq<char>, Seq<char>, u32)) -> Seq<char> {
    if starts_with(t.0, "female:"@) {
        t.1 + " \u{2640}"@
    } else if starts_with(t.0, "male:"@) {
        t.1 + " \u{2642}"@
    } else {
        t.1
    }
}

/// The offered tag options: the 300 tags with the most galleries (ties in
/// order of reading), each under its label.
pub open spec fn top_tag_options(all: Seq<(Seq<char>, Seq<char>, u32)>) -> Seq<
    (Seq<char>, Seq<char>),
> {
    let sorted = sort_by_count(all);
    let n = if sorted.len() < 300 {
        sorted.len() as int
    } else {
        300
    };
    sorted.take(n).map_values(|t: (Seq<char>, Seq<char>, u32)| (t.0, tag_label(t)))
}

/// The tags of the index pages, page after page.
pub open spec fn page_tags(pages: Seq<Seq<char>>) -> Seq<(Seq<char>, Seq<char>, u32)>
    decreases pages.len(),
{
    if pages.len() == 0 {
        Seq::empty()
    } else {
        page_tags(pages.drop_last()) + popular_tags(all_match_groups(TAG_PATTERN@, pages.last()))
    }
}

/// The texts of the pages.
pub open spec fn pages_view(pages: Seq<String>) -> Seq<Seq<char>> {
    pages.map_values(|p: String| p@)
}

/// The URL of the tag index page for the `i`-th initial.
pub open spec fn tag_page_url(i: int) -> Seq<char> {
    "https://hitomi.la/alltags-"@ + seq![TAG_PAGE_LETTERS@[i]] + ".html"@
}

/// The URLs of the tag index pages the popular tags are read from.
pub fn tag_page_urls() -> (r: Vec<String>)
    ensures
        r@.len() == TAG_PAGE_LETTERS@.len(),
        forall|i: int| 0 <= i < r@.len() ==> (#[trigger] r@[i])@ == tag_page_url(i),
{
    let letters = chars_of(TAG_PAGE_LETTERS);
    let mut out: Vec<String> = Vec::new();
    let mut i: usize = 0;
    while i < letters.len()
        invariant
            i <= letters@.len(),
            letters@ == TAG_PAGE_LETTERS@,
            out@.len() == i,
            forall|k: int| 0 <= k < i ==> (#[trigger] out@[k])@ == tag_page_url(k),
        decreases letters@.len() - i,
    {
        let mut v: Vec<char> = Vec::new();
        push_str(&mut v, "https://hitomi.la/alltags-");
        v.push(letters[i]);
        push_str(&mut v, ".html");
        out.push(string_of(&v));
        i += 1;
    }
    out
}

fn label_of(t: &ParsedTag) -> (r: String)
    ensures
        r@ == tag_label(t@),
{
    let id = chars_of(t.id.as_str());
    let female = chars_of("female:");
    let male = chars_of("male:");
    let mut v = chars_of(t.display.as_str());
    if starts_with_exec(&id, &female) {
        push_str(&mut v, " \u{2640}");
    } else if starts_with_exec(&id, &male) {
        push_str(&mut v, " \u{2642}");
    }
    string_of(&v)
}

/// Puts a tag into a list kept in descending count order, after the tags of
/// equal count.
fn insert_tag(v: &mut Vec<ParsedTag>, t: ParsedTag)
    ensures
        tags_view(final(v)@) == insert_by_count(tags_view(old(v)@), t@),
{
    let ghost before = tags_view(v@);
    let mut p: usize = 0;
    while p < v.len() && v[p].count >= t.count
        invariant
            p <= v@.len(),
            before == tags_view(v@),
            forall|q: int| 0 <= q < p ==> before[q].2 >= t.count,
        decreases v@.len() - p,
    {
        p += 1;
    }
    proof {
        lemma_insert_at(before, t@, p as int);
    }
    let ghost tv = t@;
    v.insert(p, t);
    assert(tags_view(v@) =~= before.insert(p as int, tv));
}

/// The options of the most popular tags: by descending gallery count
/// (earlier first among equals), at most 300, each labelled by its display
/// name and count.
pub fn rank_tags(all: &Vec<ParsedTag>) -> (r: Vec<SelectOption>)
    ensures
        r@.map_values(|o: SelectOption| o@) == top_tag_options(tags_view(all@)),
{
    let ghost everything = tags_view(all@);
    let mut sorted: Vec<ParsedTag> = Vec::new();
    let mut j: usize = 0;
    while j < all.len()
        invariant
            j <= all@.len(),
            everything == tags_view(all@),
            tags_view(sorted@) == sort_by_count(everything.take(j as int)),
            sorted@.len() == j,
        decreases all@.len() - j,
    {
        assert(everything.take(j + 1).drop_last() =~= everything.take(j as int));
        let a = &all[j];
        insert_tag(&mut sorted, ParsedTag { id: a.id.clone(), display: a.display.clone(), count: a.count });
        proof {
            lemma_sort_len(everything.take(j + 1));
        }
        j += 1;
    }
    assert(everything.take(all@.len() as int) =~= everything);
    let ghost sv = tags_view(sorted@);
    let n: usize = if sorted.len() < 300 {
        sorted.len()
    } else {
        300
    };
    let mut out: Vec<SelectOption> = Vec::new();
    let mut m: usize = 0;
    while m < n
        invariant
            m <= n <= sorted@.len(),
            sv == tags_view(sorted@),
            out@.len() == m,
            forall|q: int|
                0 <= q < m ==> (#[trigger] out@[q])@ == (sv[q].0, tag_label(sv[q])),
        decreases n - m,
    {
        let t = &sorted[m];
        let label = label_of(t);
        out.push(SelectOption { id: t.id.clone(), label });
        m += 1;
    }
    assert(out@.map_values(|o: SelectOption| o@) =~= sv.take(n as int).map_values(
        |t: (Seq<char>, Seq<char>, u32)| (t.0, tag_label(t)),
    ));
    out
}

/// The popular-tag options offered as a filter, from the tag index pages
/// that could be read (in the order of `tag_page_urls`).
#[verifier::spinoff_prover]
#[verifier::rlimit(40)]
pub fn top_tags(pages: &Vec<String>) -> (r: Vec<SelectOption>)
    ensures
        r@.map_values(|o: SelectOption| o@) == top_tag_options(page_tags(pages_view(pages@))),
{
    let ghost pv = pages_view(pages@);
    let mut all: Vec<ParsedTag> = Vec::new();
    let mut i: usize = 0;
    while i < pages.len()
        invariant
            i <= pages@.len(),
            pv == pages_view(pages@),
            tags_view(all@) == page_tags(pv.take(i as int)),
        decreases pages@.len() - i,
    {
        assert(pv.take(i + 1).drop_last() =~= pv.take(i as int));
        let found = parse_tag_page(pages[i].as_str());
        let ghost before = tags_view(all@);
        let mut k: usize = 0;
        while k < found.len()
            invariant
                k <= found@.len(),
                tags_view(all@) == before + tags_view(found@).take(k as int),
            decreases found@.len() - k,
        {
            let ghost prev = tags_view(all@);
            let f = &found[k];
            all.push(ParsedTag { id: f.id.clone(), display: f.display.clone(), count: f.count });
            assert(tags_view(found@).take(k + 1) =~= tags_view(found@).take(k as int).push(
                f@,
            ));
            assert(tags_view(all@) =~= prev.push(f@));
            k += 1;
        }
        assert(tags_view(found@).take(found@.len() as int) =~= tags_view(found@));
        i += 1;
    }
    assert(pv.take(pages@.len() as int) =~= pv);
    rank_tags(&all)
}

proof fn lemma_sort_len(s: Seq<(Seq<char>, Seq<char>, u32)>)
    ensures
        sort_by_count(s).len() == s.len(),
    decreases s.len(),
{
    if s.len() > 0 {
        lemma_sort_len(s.drop_last());
        lemma_insert_len(sort_by_count(s.drop_last()), s.last());
    }
}

proof fn lemma_insert_len(s: Seq<(Seq<char>, Seq<char>, u32)>, t: (Seq<char>, Seq<char>, u32))
    ensures
        insert_by_count(s, t).len() == s.len() + 1,
    decreases s.len(),
{
    if s.len() > 0 {
        lemma_insert_len(s.drop_first(), t);
    }
}

/// Counts never rise along the list.
pub open spec fn counts_descend(s: Seq<(Seq<char>, Seq<char>, u32)>) -> bool {
    forall|i: int, j: int| 0 <= i < j < s.len() ==> s[i].2 >= s[j].2
}

proof fn lemma_insert_pos(s: Seq<(Seq<char>, Seq<char>, u32)>, t: (Seq<char>, Seq<char>, u32)) -> (p:
    int)
    ensures
        0 <= p <= s.len(),
        insert_by_count(s, t) == s.insert(p, t),
    decreases s.len(),
{
    if s.len() == 0 {
        assert(s.insert(0, t) =~= seq![t]);
        0
    } else if s[0].2 < t.2 {
        assert(s.insert(0, t) =~= seq![t] + s);
        0
    } else {
        let q = lemma_insert_pos(s.drop_first(), t);
        assert(seq![s[0]] + s.drop_first().insert(q, t) =~= s.insert(q + 1, t));
        q + 1
    }
}

proof fn lemma_insert_descends(s: Seq<(Seq<char>, Seq<char>, u32)>, t: (Seq<char>, Seq<char>, u32))
    requires
        counts_descend(s),
    ensures
        counts_descend(insert_by_count(s, t)),
    decreases s.len(),
{
    if s.len() > 0 && s[0].2 >= t.2 {
        let r = s.drop_first();
        lemma_insert_descends(r, t);
        let p = lemma_insert_pos(r, t);
        let ins = insert_by_count(r, t);
        assert forall|k: int| 0 <= k < ins.len() implies ins[k].2 <= s[0].2 by {
            if k < p {
                assert(ins[k] == r[k] && r[k] == s[k + 1]);
            } else if k > p {
                assert(ins[k] == r[k - 1] && r[k - 1] == s[k]);
            }
        }
        let whole = insert_by_count(s, t);
        assert forall|i: int, j: int| 0 <= i < j < whole.len() implies whole[i].2 >= whole[j].2 by {
            if i > 0 {
                assert(whole[i] == ins[i - 1] && whole[j] == ins[j - 1]);
            } else {
                assert(whole[j] == ins[j - 1]);
            }
        }
    }
}

/// The popular tags come out with counts that never rise, and the order is a
/// rearrangement of the tags read: none lost, none added.
pub proof fn lemma_sort_by_count(s: Seq<(Seq<char>, Seq<char>, u32)>)
    ensures
        counts_descend(sort_by_count(s)),
        sort_by_count(s).to_multiset() == s.to_multiset(),
    decreases s.len(),
{
    broadcast use vstd::seq_lib::to_multiset_build, vstd::seq_lib::to_multiset_insert;

    if s.len() == 0 {
    } else {
        let d = s.drop_last();
        lemma_sort_by_count(d);
        lemma_insert_descends(sort_by_count(d), s.last());
        let p = lemma_insert_pos(sort_by_count(d), s.last());
        assert(d.push(s.last()) =~= s);
    }
}

/// Gendered tags are looked up under `/n/tag/`, type and name joined by a
/// colon: for any name and language, without a sort, the id list of
/// `male:<name>` is `/n/tag/male:<name>-<language>.nozomi` and that of
/// `female:<name>` is `/n/tag/female:<name>-<language>.nozomi`.
pub proof fn lemma_gendered_tags_live_under_tag(name: Seq<char>, language: Seq<char>)
    ensures
        nozomi_url(Some("male"@), Some(name), language, None)
            == "https://ltn.gold-usergeneratedcontent.net/n/tag/male:"@ + name + "-"@ + language
            + ".nozomi"@,
        nozomi_url(Some("female"@), Some(name), language, None)
            == "https://ltn.gold-usergeneratedcontent.net/n/tag/female:"@ + name + "-"@ + language
            + ".nozomi"@,
{
    reveal_strlit("https://ltn.gold-usergeneratedcontent.net");
    reveal_strlit("/n/tag/");
    reveal_strlit(":");
    reveal_strlit("male");
    reveal_strlit("female");
    reveal_strlit("https://ltn.gold-usergeneratedcontent.net/n/tag/male:");
    reveal_strlit("https://ltn.gold-usergeneratedcontent.net/n/tag/female:");
    assert(LTN_URL@ + "/n/tag/"@ + "male"@ + ":"@ =~= "https://ltn.gold-usergeneratedcontent.net/n/tag/male:"@);
    assert(LTN_URL@ + "/n/tag/"@ + "female"@ + ":"@ =~= "https://ltn.gold-usergeneratedcontent.net/n/tag/female:"@);
    assert(LTN_URL@ + "/n/tag/"@ + "male"@ + ":"@ + name + "-"@ + language + ".nozomi"@ =~= (LTN_URL@
        + "/n/tag/"@ + "male"@ + ":"@) + name + "-"@ + language + ".nozomi"@);
    assert(LTN_URL@ + "/n/tag/"@ + "female"@ + ":"@ + name + "-"@ + language + ".nozomi"@ =~= (LTN_URL@
        + "/n/tag/"@ + "female"@ + ":"@) + name + "-"@ + language + ".nozomi"@);
}

/// Where each id list lives: a popularity ranking (today's for `day`) when a
/// sort is given, whatever the tag; a language's own index for a `language`
/// tag; `/n/<type>/<name>` for any other, non-gendered tag type; the
/// language's index when no tag is given.
pub proof fn lemma_nozomi_url_routes(
    tag_type: Option<Seq<char>>,
    name: Option<Seq<char>>,
    t: Seq<char>,
    n: Seq<char>,
    language: Seq<char>,
    sort: Seq<char>,
)
    ensures
        nozomi_url(tag_type, name, language, Some("day"@))
            == "https://ltn.gold-usergeneratedcontent.net/popular/today-"@ + language + ".nozomi"@,
        sort != "day"@ ==> nozomi_url(tag_type, name, language, Some(sort))
            == "https://ltn.gold-usergeneratedcontent.net/popular/"@ + sort + "-"@ + language + ".nozomi"@,
        nozomi_url(Some("language"@), Some(n), language, None)
            == "https://ltn.gold-usergeneratedcontent.net/n/index-"@ + n + ".nozomi"@,
        t != "male"@ && t != "female"@ && t != "language"@ ==> nozomi_url(Some(t), Some(n), language, None)
            == "https://ltn.gold-usergeneratedcontent.net/n/"@ + t + "/"@ + n + "-"@ + language + ".nozomi"@,
        nozomi_url(None, name, language, None) == "https://ltn.gold-usergeneratedcontent.net/n/index-"@
            + language + ".nozomi"@,
        nozomi_url(tag_type, None, language, None) == "https://ltn.gold-usergeneratedcontent.net/n/index-"@
            + language + ".nozomi"@,
{
    reveal_strlit("https://ltn.gold-usergeneratedcontent.net");
    reveal_strlit("/popular/");
    reveal_strlit("today");
    reveal_strlit("-");
    reveal_strlit("https://ltn.gold-usergeneratedcontent.net/popular/today-");
    reveal_strlit("https://ltn.gold-usergeneratedcontent.net/popular/");
    reveal_strlit("/n/index-");
    reveal_strlit("https://ltn.gold-usergeneratedcontent.net/n/index-");
    reveal_strlit("/n/");
    reveal_strlit("https://ltn.gold-usergeneratedcontent.net/n/");
    reveal_strlit("language");
    reveal_strlit("male");
    reveal_strlit("female");
    reveal_strlit("day");
    assert("language"@ != "male"@) by {
        assert("language"@.len() != "male"@.len());
    }
    assert("language"@ != "female"@) by {
        assert("language"@.len() != "female"@.len());
    }
    assert(LTN_URL@ + "/popular/"@ + "today"@ + "-"@ + language + ".nozomi"@
        =~= "https://ltn.gold-usergeneratedcontent.net/popular/today-"@ + language + ".nozomi"@);
    assert(LTN_URL@ + "/popular/"@ + sort + "-"@ + language + ".nozomi"@
        =~= "https://ltn.gold-usergeneratedcontent.net/popular/"@ + sort + "-"@ + language + ".nozomi"@);
    assert(LTN_URL@ + "/n/index-"@ + n + ".nozomi"@ =~= "https://ltn.gold-usergeneratedcontent.net/n/index-"@
        + n + ".nozomi"@);
    assert(LTN_URL@ + "/n/index-"@ + language + ".nozomi"@
        =~= "https://ltn.gold-usergeneratedcontent.net/n/index-"@ + language + ".nozomi"@);
    assert(LTN_URL@ + "/n/"@ + t + "/"@ + n + "-"@ + language + ".nozomi"@
        =~= "https://ltn.gold-usergeneratedcontent.net/n/"@ + t + "/"@ + n + "-"@ + language + ".nozomi"@);
}

} // verus!
