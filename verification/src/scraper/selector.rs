use vstd::prelude::*;

verus! {

#[verifier::external_type_specification]
#[verifier::external_body]
pub struct ExSelector(scraper::Selector);

/// Whether `s` parses as a list of CSS selectors.
pub uninterp spec fn selector_parses(s: Seq<char>) -> bool;

/// `scraper::Selector::parse`: whether it gives a selector is named, the selector itself is
/// opaque.
#[verifier::external_body]
fn parse_selector(s: &str) -> (r: Option<scraper::Selector>)
    ensures
        r is Some == selector_parses(s@),
{
    scraper::Selector::parse(s).ok()
}

/// Whether `selectors` parses as a list of CSS selectors.
pub fn is_valid(selectors: &str) -> (r: bool)
    ensures
        r == selector_parses(selectors@),
{
    parse_selector(selectors).is_some()
}

/// The selector that `selectors` writes, which must parse.
pub fn from(selectors: &str) -> (r: scraper::Selector)
    requires
        selector_parses(selectors@),
{
    match parse_selector(selectors) {
        Some(s) => s,
        None => vstd::pervasive::unreached(),
    }
}

/// The selector that `selectors` writes, where it parses.
pub fn try_from(selectors: &str) -> (r: Option<scraper::Selector>)
    ensures
        r is Some == selector_parses(selectors@),
{
    if is_valid(selectors) {
        Some(from(selectors))
    } else {
        None
    }
}

/// In the HTML fragment `html`, the first child of the first element that `sel` matches, as
/// text: `None` where `sel` does not parse or matches nothing, `Some(None)` where that first
/// child is missing or is not text.
pub uninterp spec fn first_child_text(html: Seq<char>, sel: Seq<char>) -> Option<Option<Seq<char>>>;

/// In the HTML fragment `html`, the attribute `attr` of the last element that `sel` matches:
/// `None` where `sel` does not parse, matches nothing, or that element lacks the attribute.
pub uninterp spec fn last_match_attr(html: Seq<char>, sel: Seq<char>, attr: Seq<char>) -> Option<Seq<char>>;

/// In the HTML fragment `html`, the inner HTML of each element that `inner` matches within the
/// first element that `outer` matches, in document order: `None` where a selector does not
/// parse or `outer` matches nothing.
pub uninterp spec fn inner_htmls_within(html: Seq<char>, outer: Seq<char>, inner: Seq<char>) -> Option<Seq<Seq<char>>>;

/// In the HTML fragment `html`, the attribute `attr` of each element that `inner` matches
/// within the first element that `outer` matches, in document order (`None` for an element that
/// lacks it): `None` where a selector does not parse or `outer` matches nothing.
pub uninterp spec fn attrs_within(html: Seq<char>, outer: Seq<char>, inner: Seq<char>, attr: Seq<char>) -> Option<Seq<Option<Seq<char>>>>;

/// The views of an optional nested string.
pub open spec fn opt_opt_view(r: Option<Option<String>>) -> Option<Option<Seq<char>>> {
    match r {
        None => None,
        Some(None) => Some(None),
        Some(Some(s)) => Some(Some(s@)),
    }
}

/// The view of an optional string.
pub open spec fn opt_view(r: Option<String>) -> Option<Seq<char>> {
    match r {
        None => None,
        Some(s) => Some(s@),
    }
}

/// The views of an optional list of strings.
pub open spec fn opt_list_view(r: Option<Vec<String>>) -> Option<Seq<Seq<char>>> {
    match r {
        None => None,
        Some(v) => Some(v@.map_values(|s: String| s@)),
    }
}

/// Parses `html` with `scraper::Html::parse_fragment`, selects with `sel`, and reads the first
/// child of the first match as text (`first_child`, `as_text`).
#[verifier::external_body]
pub(crate) fn select_first_child_text(html: &str, sel: &str) -> (r: Option<Option<String>>)
    ensures
        opt_opt_view(r) == first_child_text(html@, sel@),
{
    let sel = scraper::Selector::parse(sel).ok()?;
    let page = scraper::Html::parse_fragment(html);
    let elem = page.select(&sel).next()?;
    Some(elem.first_child().and_then(|c| c.value().as_text().map(|t| t.to_string())))
}

/// Parses `html` with `scraper::Html::parse_fragment`, takes the last element that `sel`
/// matches (`next_back`) and reads its attribute `attr`.
#[verifier::external_body]
pub(crate) fn select_last_attr(html: &str, sel: &str, attr: &str) -> (r: Option<String>)
    ensures
        opt_view(r) == last_match_attr(html@, sel@, attr@),
{
    let sel = scraper::Selector::parse(sel).ok()?;
    let page = scraper::Html::parse_fragment(html);
    let elem = page.select(&sel).next_back()?;
    elem.value().attr(attr).map(|s| s.to_string())
}

/// Parses `html` with `scraper::Html::parse_fragment`, takes the first element that `outer`
/// matches and collects `inner_html` of the elements that `inner` matches within it.
#[verifier::external_body]
pub(crate) fn select_inner_htmls(html: &str, outer: &str, inner: &str) -> (r: Option<Vec<String>>)
    ensures
        opt_list_view(r) == inner_htmls_within(html@, outer@, inner@),
{
    let outer = scraper::Selector::parse(outer).ok()?;
    let inner = scraper::Selector::parse(inner).ok()?;
    let page = scraper::Html::parse_fragment(html);
    let elem = page.select(&outer).next()?;
    Some(elem.select(&inner).map(|e| e.inner_html()).collect())
}

/// The views of an optional list of optional strings.
pub open spec fn opt_attrs_view(r: Option<Vec<Option<String>>>) -> Option<Seq<Option<Seq<char>>>> {
    match r {
        None => None,
        Some(v) => Some(v@.map_values(|s: Option<String>| opt_view(s))),
    }
}

/// Parses `html` with `scraper::Html::parse_fragment`, takes the first element that `outer`
/// matches and collects the attribute `attr` of each element that `inner` matches within it.
#[verifier::external_body]
pub(crate) fn select_attrs(html: &str, outer: &str, inner: &str, attr: &str) -> (r: Option<Vec<Option<String>>>)
    ensures
        opt_attrs_view(r) == attrs_within(html@, outer@, inner@, attr@),
{
    let outer = scraper::Selector::parse(outer).ok()?;
    let inner = scraper::Selector::parse(inner).ok()?;
    let page = scraper::Html::parse_fragment(html);
    let elem = page.select(&outer).next()?;
    Some(elem.select(&inner).map(|e| e.value().attr(attr).map(|s| s.to_string())).collect())
}

} // verus!
