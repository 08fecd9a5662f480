use vstd::prelude::*;

pub mod animeworld;

pub use animeworld::AnimeWorld;

use crate::anime::{Anime, AnimeId, AnimeView, EpisodeId};
use crate::archive::animeworld::{get_id, number_of, page_id};
use crate::error::ScraperError;
use crate::range::Range;
use crate::scraper::selector::{
    first_child_text, inner_htmls_within, last_match_attr, opt_view, select_first_child_text,
    select_inner_htmls, select_last_attr,
};
use crate::text::{
    chars_of, first_word, first_word_by, last_word, last_word_by, lemma_parse_unsigned_bound,
    parse_decimal, parse_unsigned, replace, replace_all, string_of, CharClass,
};
use crate::url::{last_path_segment, url_last_segment};

verus! {

/// An archive that is not there yet; it offers nothing.
#[derive(Debug, Clone, Copy)]
pub struct Placeholder;

/// Whether the page has a title.
pub open spec fn title_present(html: Seq<char>) -> bool {
    first_child_text(html, "h1[id=\"anime-title\"]"@) matches Some(Some(_))
}

/// Whether a link is there and is not empty.
pub open spec fn nonempty_link(u: Option<Seq<char>>) -> bool {
    u matches Some(x) && x.len() > 0
}

/// The download link of an anime page: the `href` of the last alternative download link, or
/// where that is missing or empty the one of the last download link, or else the one of the
/// last custom download button.
pub open spec fn download_link(html: Seq<char>) -> Option<Seq<char>> {
    let a = last_match_attr(html, "a[id=\"alternativeDownloadLink\"]"@, "href"@);
    let b = last_match_attr(html, "a[id=\"downloadLink\"]"@, "href"@);
    if nonempty_link(a) {
        a
    } else if nonempty_link(b) {
        b
    } else {
        last_match_attr(html, "a[id=\"customDownloadButton\"]"@, "href"@)
    }
}

/// Whether the AniList button, where there is one, links to a URL.
pub open spec fn id_readable(html: Seq<char>) -> bool {
    last_match_attr(html, "a[id=\"anilist-button\"]"@, "href"@) matches Some(h) ==> url_last_segment(h) is Some
}

/// Whether the page groups its episodes under range titles.
pub open spec fn has_range_titles(html: Seq<char>) -> bool {
    inner_htmls_within(html, "div.range"@, "span.rangetitle"@) matches Some(s) && s.len() > 0
}

/// Whether the page has range titles or an episode list.
pub open spec fn episodes_readable(html: Seq<char>) -> bool {
    has_range_titles(html) || inner_htmls_within(html, "ul.episodes"@, "a"@) is Some
}

/// The range of episodes of a page: from the range titles, the first number of the first and
/// the last number of the last; else from the episode list, the number of the first link and
/// that of the last, which must be another link.
pub open spec fn listed_range(html: Seq<char>) -> Option<(int, int)> {
    if has_range_titles(html) {
        let spans = inner_htmls_within(html, "div.range"@, "span.rangetitle"@)->0;
        if spans.len() < 2 {
            None
        } else {
            match (
                number_of(first_word_by(spans[0], CharClass::AsciiWhitespace)),
                number_of(last_word_by(spans.last(), CharClass::AsciiWhitespace)),
            ) {
                (Some(a), Some(b)) => Some((a, b)),
                _ => None,
            }
        }
    } else {
        let items = inner_htmls_within(html, "ul.episodes"@, "a"@)->0;
        if items.len() < 2 {
            None
        } else {
            match (parse_unsigned(items[0], u32::MAX as int), parse_unsigned(items.last(), u32::MAX as int)) {
                (Some(a), Some(b)) => Some((a, b)),
                _ => None,
            }
        }
    }
}

/// Whether reading an anime page goes through: where it has a download link, it must also
/// have a readable AniList button, its episodes and a title.
pub open spec fn page_readable(html: Seq<char>) -> bool {
    download_link(html) is Some ==> id_readable(html) && episodes_readable(html) && title_present(html)
}

/// The anime that a page describes, or why it describes none.
pub open spec fn page_anime(html: Seq<char>) -> Result<AnimeView, ScraperError> {
    match download_link(html) {
        None => Err(ScraperError::Url),
        Some(u) => Ok(AnimeView {
            id: match page_id(html) {
                Some(v) => Some(AnimeId(v as u32)),
                None => None,
            },
            last_watched: None,
            name: first_child_text(html, "h1[id=\"anime-title\"]"@)->0->0,
            url: replace_all(u, "download-file.php?id="@, ""@),
            range: match listed_range(html) {
                Some((a, b)) => Some((a as u32, b as u32)),
                None => None,
            },
        }),
    }
}

/// The number written as the whole of `s`.
fn number_of_text(s: &String) -> (r: Option<u32>)
    ensures
        match parse_unsigned(s@, u32::MAX as int) {
            Some(v) => r == Some(v as u32),
            None => r is None,
        },
{
    proof {
        lemma_parse_unsigned_bound(s@, u32::MAX as int);
    }
    match parse_decimal(chars_of(s.as_str()).as_slice(), 0xffff_ffffu64) {
        Some(v) => Some(v as u32),
        None => None,
    }
}

/// The number written as the whole of `w`.
fn number_of_word(w: Option<Vec<char>>) -> (r: Option<u32>)
    ensures
        match number_of(match w { Some(x) => Some(x@), None => None }) {
            Some(v) => r == Some(v as u32),
            None => r is None,
        },
{
    match w {
        Some(x) => {
            proof {
                lemma_parse_unsigned_bound(x@, u32::MAX as int);
            }
            match parse_decimal(x.as_slice(), 0xffff_ffffu64) {
                Some(v) => Some(v as u32),
                None => None,
            }
        },
        None => None,
    }
}

impl AnimeWorld {
    /// The address of the archive, at its `.tv` domain.
    pub fn referrer() -> (r: Option<String>)
        ensures
            r matches Some(s) && s@ == "https://www.animeworld.tv"@,
    {
        Some("https://www.animeworld.tv".to_owned())
    }

    /// Reads the title of an anime page, which must have one.
    pub fn parse_name(html: &str) -> (r: String)
        requires
            title_present(html@),
        ensures
            r@ == first_child_text(html@, "h1[id=\"anime-title\"]"@)->0->0,
    {
        match select_first_child_text(html, "h1[id=\"anime-title\"]") {
            Some(Some(t)) => t,
            _ => vstd::pervasive::unreached(),
        }
    }

    /// Reads the download link of an anime page, without its `download-file.php?id=` prefix.
    pub fn parse_url(html: &str) -> (r: Result<String, ScraperError>)
        ensures
            match download_link(html@) {
                Some(u) => r matches Ok(x) && x@ == replace_all(u, "download-file.php?id="@, ""@),
                None => r == Err::<String, ScraperError>(ScraperError::Url),
            },
    {
        let mut url = select_last_attr(html, "a[id=\"alternativeDownloadLink\"]", "href");
        let empty = match &url {
            Some(u) => u.as_str().is_empty(),
            None => true,
        };
        proof {
            assert(empty == !nonempty_link(opt_view(url)));
        }
        if empty {
            url = select_last_attr(html, "a[id=\"downloadLink\"]", "href");
            let empty2 = match &url {
                Some(u) => u.as_str().is_empty(),
                None => true,
            };
            if empty2 {
                url = select_last_attr(html, "a[id=\"customDownloadButton\"]", "href");
            }
        }
        match url {
            Some(u) => {
                let pat = chars_of("download-file.php?id=");
                let rep = chars_of("");
                proof {
                    reveal_strlit("download-file.php?id=");
                }
                Ok(string_of(replace(chars_of(u.as_str()).as_slice(), pat.as_slice(), rep.as_slice()).as_slice()))
            },
            None => Err(ScraperError::Url),
        }
    }

    /// Reads the AniList id of an anime page, whose AniList button must link to a URL.
    pub fn parse_id(html: &str) -> (r: Option<u32>)
        requires
            id_readable(html@),
        ensures
            match page_id(html@) {
                Some(v) => r == Some(v as u32),
                None => r is None,
            },
    {
        get_id(html)
    }

    /// Reads the range of episodes of an anime page, which must have range titles or an
    /// episode list.
    pub fn parse_episodes(html: &str) -> (r: Option<(u32, u32)>)
        requires
            episodes_readable(html@),
        ensures
            match listed_range(html@) {
                Some((a, b)) => r == Some((a as u32, b as u32)),
                None => r is None,
            },
    {
        match select_inner_htmls(html, "div.range", "span.rangetitle") {
            Some(spans) => {
                if spans.len() > 0 {
                    if spans.len() < 2 {
                        return None;
                    }
                    let a = number_of_word(first_word(chars_of(spans[0].as_str()).as_slice(), CharClass::AsciiWhitespace));
                    let b = number_of_word(last_word(chars_of(spans[spans.len() - 1].as_str()).as_slice(), CharClass::AsciiWhitespace));
                    return match (a, b) {
                        (Some(a), Some(b)) => Some((a, b)),
                        _ => None,
                    };
                }
            },
            None => {},
        }
        let items = match select_inner_htmls(html, "ul.episodes", "a") {
            Some(items) => items,
            None => vstd::pervasive::unreached(),
        };
        if items.len() < 2 {
            return None;
        }
        let a = number_of_text(&items[0]);
        let b = number_of_text(&items[items.len() - 1]);
        match (a, b) {
            (Some(a), Some(b)) => Some((a, b)),
            _ => None,
        }
    }

    /// Reads the anime that a page describes: its download link, AniList id, episodes and
    /// title.
    pub fn parser(html: &str) -> (r: Result<Anime, ScraperError>)
        requires
            page_readable(html@),
        ensures
            match page_anime(html@) {
                Ok(v) => r matches Ok(a) && a@ == v,
                Err(e) => r matches Err(x) && x == e,
            },
    {
        let url = match AnimeWorld::parse_url(html) {
            Ok(u) => u,
            Err(e) => return Err(e),
        };
        let id = match AnimeWorld::parse_id(html) {
            Some(v) => Some(AnimeId(v)),
            None => None,
        };
        let episodes = match AnimeWorld::parse_episodes(html) {
            Some((a, b)) => Some(Range::new(EpisodeId(a), EpisodeId(b))),
            None => None,
        };
        let name = AnimeWorld::parse_name(html);
        Ok(Anime::new(name.as_str(), url.as_str(), id, episodes))
    }

    /// Reads the anime that a page describes where the page can be read; `None` where it has a
    /// download link but lacks a readable AniList button, its episodes or a title.
    pub fn checked_parser(html: &str) -> (r: Option<Result<Anime, ScraperError>>)
        ensures
            page_readable(html@) ==> match page_anime(html@) {
                Ok(v) => r matches Some(Ok(a)) && a@ == v,
                Err(e) => r matches Some(Err(x)) && x == e,
            },
            !page_readable(html@) ==> r is None,
    {
        let has_link = AnimeWorld::parse_url(html).is_ok();
        if has_link {
            let href = select_last_attr(html, "a[id=\"anilist-button\"]", "href");
            let id_ok = match href {
                Some(h) => last_path_segment(h.as_str()).is_some(),
                None => true,
            };
            let titled = match select_inner_htmls(html, "div.range", "span.rangetitle") {
                Some(spans) => spans.len() > 0,
                None => false,
            };
            let listed = select_inner_htmls(html, "ul.episodes", "a").is_some();
            let named = match select_first_child_text(html, "h1[id=\"anime-title\"]") {
                Some(Some(_)) => true,
                _ => false,
            };
            if !(id_ok && (titled || listed) && named) {
                return None;
            }
        }
        Some(AnimeWorld::parser(html))
    }
}

} // verus!
