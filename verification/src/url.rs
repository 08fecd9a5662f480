use vstd::prelude::*;

verus! {

/// What `reqwest::Url::parse` makes of a string, then the last of its path segments:
/// `None` where the string is not a URL, `Some(None)` where the URL has no path segments
/// (it cannot be a base), else `Some(Some(segment))`.
pub uninterp spec fn url_last_segment(s: Seq<char>) -> Option<Option<Seq<char>>>;

/// The views of a nested optional string.
pub open spec fn opt2_view(r: Option<Option<String>>) -> Option<Option<Seq<char>>> {
    match r {
        None => None,
        Some(None) => Some(None),
        Some(Some(x)) => Some(Some(x@)),
    }
}

/// Parses `s` with `reqwest::Url::parse` and takes the last of the URL's path segments
/// (`path_segments().next_back()`). The contract only names the result: which strings are
/// URLs and how `url` splits their paths is not restated here.
#[verifier::external_body]
pub fn last_path_segment(s: &str) -> (r: Option<Option<String>>)
    ensures
        opt2_view(r) == url_last_segment(s@),
{
    match reqwest::Url::parse(s) {
        Ok(u) => match u.path_segments() {
            Some(mut segments) => match segments.next_back() {
                Some(last) => Some(Some(last.to_string())),
                None => Some(None),
            },
            None => Some(None),
        },
        Err(_) => None,
    }
}

/// Whether `s` parses as a URL.
pub fn is_web_url(s: &str) -> (r: bool)
    ensures
        r == url_last_segment(s@) is Some,
{
    last_path_segment(s).is_some()
}

} // verus!
