//! Reading HTML documents, done by the `scraper` crate: how many elements a
//! CSS selector matches, and the attributes and text of a match or of a
//! match inside a match.
use vstd::prelude::*;
use crate::model::{
    SourceError, is_parse_error,
};
use crate::text::{chars_of, opt_string, push_str, string_of};

verus! {

/// Whether `scraper` accepts `selector` as a CSS selector group.
pub uninterp spec fn css_valid(selector: Seq<char>) -> bool;

/// How many elements of the document `html` match `selector`, as `scraper`
/// parses and matches them; none when the selector is not valid.
pub uninterp spec fn match_count(html: Seq<char>, selector: Seq<char>) -> nat;

/// Attribute `name` of the `i`-th element of `html` that matches `selector`,
/// in the order in which `scraper` yields its matches.
pub uninterp spec fn match_attr(html: Seq<char>, selector: Seq<char>, i: nat, name: Seq<char>) -> Option<
    Seq<char>,
>;

/// The text of the `i`-th element of `html` matching `selector`: its
/// descendant text nodes, one after the other.
pub uninterp spec fn match_text(html: Seq<char>, selector: Seq<char>, i: nat) -> Seq<char>;

/// How many descendants of the `i`-th match of `outer` match `inner`.
pub uninterp spec fn inner_count(html: Seq<char>, outer: Seq<char>, i: nat, inner: Seq<char>) -> nat;

/// Attribute `name` of the `j`-th descendant matching `inner` of the `i`-th
/// match of `outer`.
pub uninterp spec fn inner_attr(
    html: Seq<char>,
    outer: Seq<char>,
    i: nat,
    inner: Seq<char>,
    j: nat,
    name: Seq<char>,
) -> Option<Seq<char>>;

/// The text of the `j`-th descendant matching `inner` of the `i`-th match of
/// `outer`.
pub uninterp spec fn inner_text(
    html: Seq<char>,
    outer: Seq<char>,
    i: nat,
    inner: Seq<char>,
    j: nat,
) -> Seq<char>;

/// `scraper::Selector::parse` succeeds on `selector`. The contract claims
/// only that the answer is what `scraper` decides.
#[verifier::external_body]
pub(crate) fn selector_ok(selector: &str) -> (r: bool)
    ensures
        r == css_valid(selector@),
{
    scraper::Selector::parse(selector).is_ok()
}

/// Counts `Html::parse_document(html).select(selector)`; 0 for a selector
/// that does not parse. The count is claimed to be what `scraper` computes,
/// nothing about the matching itself.
#[verifier::external_body]
pub(crate) fn count_matches(html: &str, selector: &str) -> (r: usize)
    ensures
        r as nat == match_count(html@, selector@),
{
    match scraper::Selector::parse(selector) {
        Ok(sel) => scraper::Html::parse_document(html).select(&sel).count(),
        Err(_) => 0,
    }
}

/// `ElementRef::attr(name)` of the `i`-th match of `selector` in
/// `Html::parse_document(html)`.
#[verifier::external_body]
pub(crate) fn attr_of_match(html: &str, selector: &str, i: usize, name: &str) -> (r: Option<String>)
    ensures
        i < match_count(html@, selector@) ==> opt_string(r) == match_attr(html@, selector@, i as nat, name@),
{
    let sel = scraper::Selector::parse(selector).ok()?;
    let doc = scraper::Html::parse_document(html);
    let el = doc.select(&sel).nth(i)?;
    el.attr(name).map(|v| v.to_owned())
}

/// The `ElementRef::text` pieces, joined, of the `i`-th match of `selector`
/// in `Html::parse_document(html)`.
#[verifier::external_body]
pub(crate) fn text_of_match(html: &str, selector: &str, i: usize) -> (r: String)
    ensures
        i < match_count(html@, selector@) ==> r@ == match_text(html@, selector@, i as nat),
{
    let Ok(sel) = scraper::Selector::parse(selector) else { return String::new() };
    let doc = scraper::Html::parse_document(html);
    doc.select(&sel).nth(i).map(|el| el.text().collect::<String>()).unwrap_or_default()
}

/// Counts `ElementRef::select(inner)` under the `i`-th match of `outer` in
/// `Html::parse_document(html)`.
#[verifier::external_body]
pub(crate) fn count_within(html: &str, outer: &str, i: usize, inner: &str) -> (r: usize)
    ensures
        i < match_count(html@, outer@) ==> r as nat == inner_count(html@, outer@, i as nat, inner@),
{
    let (Ok(o), Ok(n)) = (scraper::Selector::parse(outer), scraper::Selector::parse(inner)) else {
        return 0
    };
    let doc = scraper::Html::parse_document(html);
    doc.select(&o).nth(i).map(|el| el.select(&n).count()).unwrap_or(0)
}

/// `ElementRef::attr(name)` of the `j`-th `inner` match under the `i`-th
/// match of `outer` in `Html::parse_document(html)`.
#[verifier::external_body]
pub(crate) fn attr_within(html: &str, outer: &str, i: usize, inner: &str, j: usize, name: &str) -> (r:
    Option<String>)
    ensures
        i < match_count(html@, outer@) && j < inner_count(html@, outer@, i as nat, inner@)
            ==> opt_string(r) == inner_attr(html@, outer@, i as nat, inner@, j as nat, name@),
{
    let (o, n) = (scraper::Selector::parse(outer).ok()?, scraper::Selector::parse(inner).ok()?);
    let doc = scraper::Html::parse_document(html);
    let el = doc.select(&o).nth(i)?.select(&n).nth(j)?;
    el.attr(name).map(|v| v.to_owned())
}

/// The `ElementRef::text` pieces, joined, of the `j`-th `inner` match under
/// the `i`-th match of `outer` in `Html::parse_document(html)`.
#[verifier::external_body]
pub(crate) fn text_within(html: &str, outer: &str, i: usize, inner: &str, j: usize) -> (r: String)
    ensures
        i < match_count(html@, outer@) && j < inner_count(html@, outer@, i as nat, inner@) ==> r@
            == inner_text(html@, outer@, i as nat, inner@, j as nat),
{
    let (Ok(o), Ok(n)) = (scraper::Selector::parse(outer), scraper::Selector::parse(inner)) else {
        return String::new()
    };
    let doc = scraper::Html::parse_document(html);
    let el = doc.select(&o).nth(i).and_then(|e| e.select(&n).nth(j));
    el.map(|e| e.text().collect::<String>()).unwrap_or_default()
}

/// The message of the error a selector the HTML reader rejects gives.
pub open spec fn bad_selector_message(selector: Seq<char>) -> Seq<char> {
    "invalid selector: "@ + selector
}

/// The error for the first of the selectors the HTML reader rejects, if any.
pub open spec fn selector_error(selectors: Seq<Seq<char>>) -> Option<Seq<char>>
    decreases selectors.len(),
{
    if selectors.len() == 0 {
        None
    } else if !css_valid(selectors[0]) {
        Some(bad_selector_message(selectors[0]))
    } else {
        selector_error(selectors.drop_first())
    }
}

fn check_selector(selector: &str) -> (r: Result<(), SourceError>)
    ensures
        match r {
            Ok(_) => css_valid(selector@),
            Err(e) => !css_valid(selector@) && is_parse_error(e, bad_selector_message(selector@)),
        },
{
    if selector_ok(selector) {
        Ok(())
    } else {
        let mut v = chars_of("invalid selector: ");
        push_str(&mut v, selector);
        Err(SourceError::Parse { message: string_of(&v) })
    }
}

/// Checks selectors in order; the first the HTML reader rejects is an
/// error.
pub fn check_selectors(selectors: &Vec<&str>) -> (r: Result<(), SourceError>)
    ensures
        match selector_error(selectors@.map_values(|s: &str| s@)) {
            Some(m) => r matches Err(e) && is_parse_error(e, m),
            None => r is Ok,
        },
{
    let ghost sv = selectors@.map_values(|s: &str| s@);
    assert(sv.skip(0) =~= sv);
    let mut i: usize = 0;
    while i < selectors.len()
        invariant
            i <= selectors@.len(),
            sv == selectors@.map_values(|s: &str| s@),
            selector_error(sv) == selector_error(sv.skip(i as int)),
        decreases selectors@.len() - i,
    {
        let ghost rest = sv.skip(i as int);
        assert(rest[0] == selectors@[i as int]@);
        assert(rest.drop_first() =~= sv.skip(i + 1));
        match check_selector(selectors[i]) {
            Ok(_) => {},
            Err(e) => {
                return Err(e);
            },
        }
        i += 1;
    }
    assert(sv.skip(i as int).len() == 0);
    Ok(())
}

} // verus!
