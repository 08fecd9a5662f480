use vstd::prelude::*;

use crate::anilist::{lemma_lex_total, lemma_lex_trans, lex_le, lex_le_exec};
use crate::anime::{strings, Anime, AnimeId, AnimeView, EpisodeId};
use crate::error::{ScraperError, SearchError};
use crate::range::{parsed_values, Range};
use crate::scraper::selector::{
    attrs_within, first_child_text, inner_htmls_within, last_match_attr, opt_view, select_attrs,
    select_first_child_text, select_inner_htmls, select_last_attr,
};
use crate::text::{
    chars_of, contains, find_text, first_word, first_word_by, last_word,
    last_word_by, lemma_parse_unsigned_bound, occurs, parse_decimal, parse_unsigned, replace,
    replace_all, second_piece, before_first, slice_copy, string_of, trim, trim_by, CharClass,
};
use crate::url::{last_path_segment, url_last_segment};

verus! {

/// The AnimeWorld archive.
#[derive(Debug, Clone, Copy)]
pub struct AnimeWorld;

/// The address of the archive, sent as referrer to the media servers.
pub const REFERRER: &'static str = "https://www.animeworld.ac";

/// The name of the cookie that the archive asks for.
pub const COOKIE_NAME: &'static str = "SecurityAW";

/// The session cookie that the archive's front page sets: the cookie name followed by what
/// comes after its first mention, up to the next mention and then up to ` ;  path=/`, trimmed.
pub open spec fn page_cookie(text: Seq<char>) -> Option<Seq<char>> {
    match second_piece(text, COOKIE_NAME@) {
        None => None,
        Some(p) => Some(COOKIE_NAME@ + trim_by(before_first(p, " ;  path=/"@), CharClass::Whitespace)),
    }
}

/// `a` followed by `b`.
fn joined(a: &[char], b: &[char]) -> (r: Vec<char>)
    ensures
        r@ == a@ + b@,
{
    let mut out: Vec<char> = Vec::new();
    let mut i: usize = 0;
    while i < a.len()
        invariant
            i <= a.len(),
            out@ == a@.take(i as int),
        decreases a.len() - i,
    {
        out.push(a[i]);
        i += 1;
        assert(out@ =~= a@.take(i as int));
    }
    let mut j: usize = 0;
    assert(a@.take(i as int) =~= a@);
    while j < b.len()
        invariant
            j <= b.len(),
            out@ == a@ + b@.take(j as int),
        decreases b.len() - j,
    {
        out.push(b[j]);
        j += 1;
        assert(out@ =~= a@ + b@.take(j as int));
    }
    assert(b@.take(j as int) =~= b@);
    out
}

/// The text of `s` before the first `pat`, or all of it.
fn text_before(s: &[char], pat: &[char]) -> (r: Vec<char>)
    ensures
        r@ == before_first(s@, pat@),
{
    match find_text(s, pat) {
        Some(i) => slice_copy(s, 0, i),
        None => slice_copy(s, 0, s.len()),
    }
}

/// Reads the session cookie out of the text of the archive's front page.
pub fn cookie_from_page(text: &str) -> (r: Option<String>)
    ensures
        opt_view(r) == page_cookie(text@),
{
    let cs = chars_of(text);
    let name = chars_of(COOKIE_NAME);
    let i = match find_text(cs.as_slice(), name.as_slice()) {
        Some(i) => i,
        None => return None,
    };
    let rest = slice_copy(cs.as_slice(), i + name.len(), cs.len());
    assert(rest@ == cs@.skip(i + name@.len()));
    let piece = text_before(rest.as_slice(), name.as_slice());
    let end = chars_of(" ;  path=/");
    let value = text_before(piece.as_slice(), end.as_slice());
    let value = trim(value.as_slice(), CharClass::Whitespace);
    Some(string_of(joined(name.as_slice(), value.as_slice()).as_slice()))
}

/// The address of the search page for `keyword`.
pub fn search_url(keyword: &str) -> (r: String)
    ensures
        r@ == REFERRER@ + "/search?keyword="@ + keyword@,
{
    let a = joined(chars_of(REFERRER).as_slice(), chars_of("/search?keyword=").as_slice());
    string_of(joined(a.as_slice(), chars_of(keyword).as_slice()).as_slice())
}

/// The address of a page of the archive from its path.
pub fn page_url(path: &str) -> (r: String)
    ensures
        r@ == REFERRER@ + path@,
{
    string_of(joined(chars_of(REFERRER).as_slice(), chars_of(path).as_slice()).as_slice())
}

/// The attributes that are there, in order.
pub open spec fn present(v: Seq<Option<Seq<char>>>) -> Seq<Seq<char>>
    decreases v.len(),
{
    if v.len() == 0 {
        Seq::<Seq<char>>::empty()
    } else {
        match v.last() {
            Some(x) => present(v.drop_last()).push(x),
            None => present(v.drop_last()),
        }
    }
}

/// `x` inserted into `sorted` after every text that is not greater.
pub open spec fn insert_text(sorted: Seq<Seq<char>>, x: Seq<char>) -> Seq<Seq<char>>
    decreases sorted.len(),
{
    if sorted.len() == 0 {
        seq![x]
    } else if lex_le(sorted.last(), x) {
        sorted.push(x)
    } else {
        insert_text(sorted.drop_last(), x).push(sorted.last())
    }
}

/// The texts in increasing order.
pub open spec fn sort_texts(s: Seq<Seq<char>>) -> Seq<Seq<char>>
    decreases s.len(),
{
    if s.len() == 0 {
        s
    } else {
        insert_text(sort_texts(s.drop_last()), s.last())
    }
}

proof fn lemma_insert_text_split(sorted: Seq<Seq<char>>, x: Seq<char>, j: int)
    requires
        0 <= j <= sorted.len(),
        forall|k: int| j <= k < sorted.len() ==> !lex_le(#[trigger] sorted[k], x),
        j > 0 ==> lex_le(sorted[j - 1], x),
    ensures
        insert_text(sorted, x) == sorted.take(j).push(x) + sorted.skip(j),
    decreases sorted.len(),
{
    if sorted.len() == 0 {
        assert(sorted.take(j).push(x) + sorted.skip(j) =~= seq![x]);
    } else if j == sorted.len() {
        assert(sorted.take(j) == sorted);
        assert(sorted.take(j).push(x) + sorted.skip(j) =~= sorted.push(x));
    } else {
        let d = sorted.drop_last();
        assert(!lex_le(sorted.last(), x)) by {
            assert(sorted[sorted.len() - 1] == sorted.last());
        }
        assert forall|k: int| j <= k < d.len() implies !lex_le(#[trigger] d[k], x) by {
            assert(d[k] == sorted[k]);
        }
        if j > 0 {
            assert(d[j - 1] == sorted[j - 1]);
        }
        lemma_insert_text_split(d, x, j);
        assert(d.take(j) == sorted.take(j));
        assert((d.take(j).push(x) + d.skip(j)).push(sorted.last()) =~= sorted.take(j).push(x) + sorted.skip(j));
    }
}

/// Each text is no greater than the next ones.
pub open spec fn sorted_texts(s: Seq<Seq<char>>) -> bool {
    forall|i: int, j: int| 0 <= i < j < s.len() ==> lex_le(#[trigger] s[i], #[trigger] s[j])
}

proof fn lemma_insert_text_multiset(sorted: Seq<Seq<char>>, x: Seq<char>)
    ensures
        insert_text(sorted, x).to_multiset() == sorted.to_multiset().insert(x),
    decreases sorted.len(),
{
    broadcast use vstd::seq_lib::group_to_multiset_ensures;
    if sorted.len() == 0 {
        assert(seq![x] == Seq::<Seq<char>>::empty().push(x));
    } else if lex_le(sorted.last(), x) {
    } else {
        lemma_insert_text_multiset(sorted.drop_last(), x);
        assert(sorted.drop_last().push(sorted.last()) == sorted);
        assert(insert_text(sorted.drop_last(), x).push(sorted.last()).to_multiset()
            =~= sorted.to_multiset().insert(x));
    }
}

proof fn lemma_insert_text_sorted(sorted: Seq<Seq<char>>, x: Seq<char>)
    requires
        sorted_texts(sorted),
    ensures
        sorted_texts(insert_text(sorted, x)),
    decreases sorted.len(),
{
    broadcast use vstd::seq_lib::group_to_multiset_ensures;
    if sorted.len() == 0 {
    } else if lex_le(sorted.last(), x) {
        let r = sorted.push(x);
        assert forall|i: int, j: int| 0 <= i < j < r.len() implies lex_le(#[trigger] r[i], #[trigger] r[j]) by {
            if j == sorted.len() {
                if i < sorted.len() - 1 {
                    lemma_lex_trans(sorted[i], sorted.last(), x);
                }
            } else {
                assert(r[i] == sorted[i] && r[j] == sorted[j]);
            }
        }
    } else {
        let d = sorted.drop_last();
        let l = sorted.last();
        assert(sorted_texts(d)) by {
            assert forall|i: int, j: int| 0 <= i < j < d.len() implies lex_le(#[trigger] d[i], #[trigger] d[j]) by {
                assert(d[i] == sorted[i] && d[j] == sorted[j]);
            }
        }
        lemma_insert_text_sorted(d, x);
        lemma_insert_text_multiset(d, x);
        lemma_lex_total(l, x);
        let m = insert_text(d, x);
        let r = m.push(l);
        assert forall|k: int| 0 <= k < m.len() implies lex_le(#[trigger] m[k], l) by {
            assert(m.to_multiset().contains(m[k]));
            assert(d.to_multiset().insert(x).contains(m[k]));
            if m[k] != x {
                assert(d.to_multiset().contains(m[k]));
                assert(d.contains(m[k]));
                let t = choose|t: int| 0 <= t < d.len() && d[t] == m[k];
                assert(sorted[t] == d[t]);
                assert(sorted[sorted.len() - 1] == l);
            }
        }
        assert forall|i: int, j: int| 0 <= i < j < r.len() implies lex_le(#[trigger] r[i], #[trigger] r[j]) by {
            if j == m.len() {
                assert(r[i] == m[i]);
            } else {
                assert(r[i] == m[i] && r[j] == m[j]);
            }
        }
    }
}

/// The links of a search come out in increasing order, and are the links that the page holds.
pub proof fn law_sort_texts(s: Seq<Seq<char>>)
    ensures
        sorted_texts(sort_texts(s)),
        sort_texts(s).to_multiset() == s.to_multiset(),
    decreases s.len(),
{
    broadcast use vstd::seq_lib::group_to_multiset_ensures;
    if s.len() > 0 {
        law_sort_texts(s.drop_last());
        lemma_insert_text_sorted(sort_texts(s.drop_last()), s.last());
        lemma_insert_text_multiset(sort_texts(s.drop_last()), s.last());
        assert(s.drop_last().push(s.last()) == s);
    }
}

/// Sorts texts in increasing order.
pub fn sort_strings(v: Vec<String>) -> (r: Vec<String>)
    ensures
        strings(r@) == sort_texts(strings(v@)),
{
    let mut out: Vec<String> = Vec::new();
    let mut i: usize = 0;
    while i < v.len()
        invariant
            i <= v.len(),
            strings(out@) == sort_texts(strings(v@).take(i as int)),
        decreases v.len() - i,
    {
        let x = v[i].clone();
        let xs = chars_of(x.as_str());
        assert(strings(v@).take(i + 1).drop_last() == strings(v@).take(i as int));
        assert(strings(v@).take(i + 1).last() == x@);
        let ghost sv = strings(out@);
        let mut j: usize = out.len();
        assert(sv.len() == out@.len());
        while j > 0 && !lex_le_exec(chars_of(out[j - 1].as_str()).as_slice(), xs.as_slice())
            invariant
                j <= out.len(),
                sv == strings(out@),
                sv.len() == out@.len(),
                xs@ == x@,
                forall|k: int| j <= k < sv.len() ==> !lex_le(#[trigger] sv[k], x@),
            decreases j,
        {
            assert(sv[j - 1] == out@[j - 1]@);
            j -= 1;
        }
        proof {
            if j > 0 {
                assert(sv[j - 1] == out@[j - 1]@);
            }
            lemma_insert_text_split(sv, x@, j as int);
        }
        let ghost xv = x@;
        out.insert(j, x);
        assert(strings(out@) =~= sv.take(j as int).push(xv) + sv.skip(j as int));
        i += 1;
    }
    assert(strings(v@).take(v.len() as int) == strings(v@));
    out
}

/// The links of a search result page: the `href` of the names in the film list, sorted.
pub open spec fn result_links(html: Seq<char>) -> Result<Seq<Seq<char>>, SearchError> {
    match attrs_within(html, "div.film-list"@, "a.name"@, "href"@) {
        None => Err(SearchError::Blocked),
        Some(v) => if present(v).len() == 0 {
            Err(SearchError::NoAnime)
        } else {
            Ok(sort_texts(present(v)))
        },
    }
}

/// Reads the links to the anime pages out of a search result page.
pub fn search_links(html: &str) -> (r: Result<Vec<String>, SearchError>)
    ensures
        match result_links(html@) {
            Ok(links) => r matches Ok(v) && strings(v@) == links,
            Err(e) => r == Err::<Vec<String>, SearchError>(e),
        },
{
    let attrs = match select_attrs(html, "div.film-list", "a.name", "href") {
        Some(a) => a,
        None => return Err(SearchError::Blocked),
    };
    let ghost av = attrs@.map_values(|s: Option<String>| opt_view(s));
    let mut found: Vec<String> = Vec::new();
    let mut i: usize = 0;
    while i < attrs.len()
        invariant
            i <= attrs.len(),
            av == attrs@.map_values(|s: Option<String>| opt_view(s)),
            strings(found@) == present(av.take(i as int)),
        decreases attrs.len() - i,
    {
        assert(av.take(i + 1).drop_last() == av.take(i as int));
        assert(av.take(i + 1).last() == opt_view(attrs@[i as int]));
        match &attrs[i] {
            Some(s) => {
                let ghost before = found@;
                found.push(s.clone());
                assert(strings(found@) =~= strings(before).push(s@));
            },
            None => {},
        }
        i += 1;
    }
    assert(av.take(attrs.len() as int) == av);
    if found.len() == 0 {
        return Err(SearchError::NoAnime);
    }
    Ok(sort_strings(found))
}

/// Whether the name marks the Italian dub.
pub open spec fn is_dub(name: Seq<char>) -> bool {
    occurs(name, "(ITA)"@)
}

/// The first anime with the AniList id `id` that is not the Italian dub.
pub open spec fn matching_position(series: Seq<AnimeView>, id: AnimeId) -> Option<int> {
    if exists|i: int| 0 <= i < series.len() && series[i].id == Some(id) && !is_dub(series[i].name) {
        Some(choose|i: int| 0 <= i < series.len() && series[i].id == Some(id) && !is_dub(series[i].name)
            && forall|j: int| 0 <= j < i ==> !(series[j].id == Some(id) && !is_dub(series[j].name)))
    } else {
        None
    }
}

/// The views of a list of anime.
pub open spec fn anime_views(v: Seq<Anime>) -> Seq<AnimeView> {
    v.map_values(|a: Anime| a@)
}

/// Finds the anime that a search by AniList id asks for.
pub fn find_by_id(series: &[Anime], id: AnimeId) -> (r: Option<usize>)
    ensures
        match matching_position(anime_views(series@), id) {
            Some(i) => r == Some(i as usize),
            None => r is None,
        },
{
    let ghost sv = anime_views(series@);
    let dub = chars_of("(ITA)");
    let mut i: usize = 0;
    while i < series.len()
        invariant
            i <= series.len(),
            sv == anime_views(series@),
            sv.len() == series@.len(),
            dub@ == "(ITA)"@,
            forall|j: int| 0 <= j < i ==> !(sv[j].id == Some(id) && !is_dub(sv[j].name)),
        decreases series.len() - i,
    {
        let a = &series[i];
        assert(sv[i as int] == a@);
        let same = match a.id() {
            Some(x) => x.0 == id.0,
            None => false,
        };
        if same && !contains(chars_of(a.name()).as_slice(), dub.as_slice()) {
            proof {
                let w = choose|k: int| 0 <= k < sv.len() && sv[k].id == Some(id) && !is_dub(sv[k].name)
                    && forall|j: int| 0 <= j < k ==> !(sv[j].id == Some(id) && !is_dub(sv[j].name));
                assert(sv[i as int].id == Some(id) && !is_dub(sv[i as int].name));
                if w < i {
                    assert(!(sv[w].id == Some(id) && !is_dub(sv[w].name)));
                }
                if i < w {
                    assert(!(sv[i as int].id == Some(id) && !is_dub(sv[i as int].name)));
                }
            }
            return Some(i);
        }
        i += 1;
    }
    None
}

/// The title of an anime page.
pub open spec fn page_name(html: Seq<char>) -> Option<Seq<char>> {
    match first_child_text(html, "h1[id=\"anime-title\"]"@) {
        Some(Some(t)) => Some(t),
        _ => None,
    }
}

/// Reads the title of an anime page.
pub fn get_name(html: &str) -> (r: Option<String>)
    ensures
        opt_view(r) == page_name(html@),
{
    match select_first_child_text(html, "h1[id=\"anime-title\"]") {
        Some(Some(t)) => Some(t),
        _ => None,
    }
}

/// The link of the episode file: the `href` of the last of the first kind of download button
/// that the page has, without its `download-file.php?id=` prefix.
pub open spec fn page_link(html: Seq<char>) -> Option<Seq<char>> {
    let strip = |u: Seq<char>| replace_all(u, "download-file.php?id="@, ""@);
    match last_match_attr(html, "a[id=\"alternativeDownloadLink\"]"@, "href"@) {
        Some(u) => Some(strip(u)),
        None => match last_match_attr(html, "a[id=\"downloadLink\"]"@, "href"@) {
            Some(u) => Some(strip(u)),
            None => match last_match_attr(html, "a[id=\"customDownloadButton\"]"@, "href"@) {
                Some(u) => Some(strip(u)),
                None => None,
            },
        },
    }
}

/// The link of the episode file is the `href` of the last alternative download link, or else
/// of the last download link, or else of the last custom download button, each time with every
/// `download-file.php?id=` taken out (as `str::replace` with an empty text does); with none of
/// them, there is no link.
pub proof fn law_page_link_order(html: Seq<char>)
    ensures
        last_match_attr(html, "a[id=\"alternativeDownloadLink\"]"@, "href"@) matches Some(u)
            ==> page_link(html) == Some(replace_all(u, "download-file.php?id="@, ""@)),
        last_match_attr(html, "a[id=\"alternativeDownloadLink\"]"@, "href"@) is None
            ==> (last_match_attr(html, "a[id=\"downloadLink\"]"@, "href"@) matches Some(u)
            ==> page_link(html) == Some(replace_all(u, "download-file.php?id="@, ""@))),
        last_match_attr(html, "a[id=\"alternativeDownloadLink\"]"@, "href"@) is None
            && last_match_attr(html, "a[id=\"downloadLink\"]"@, "href"@) is None
            ==> (last_match_attr(html, "a[id=\"customDownloadButton\"]"@, "href"@) matches Some(u)
            ==> page_link(html) == Some(replace_all(u, "download-file.php?id="@, ""@))),
        last_match_attr(html, "a[id=\"alternativeDownloadLink\"]"@, "href"@) is None
            && last_match_attr(html, "a[id=\"downloadLink\"]"@, "href"@) is None
            && last_match_attr(html, "a[id=\"customDownloadButton\"]"@, "href"@) is None
            ==> page_link(html) is None,
{
}

/// A link made of `download-file.php?id=` and the file's address, where that text occurs
/// nowhere else, comes out as the file's address.
pub proof fn law_download_prefix_removed(rest: Seq<char>)
    requires
        forall|j: int| j != 0 ==> !#[trigger] crate::text::pattern_at("download-file.php?id="@ + rest, "download-file.php?id="@, j),
    ensures
        replace_all("download-file.php?id="@ + rest, "download-file.php?id="@, ""@) == rest,
{
    let pat = "download-file.php?id="@;
    reveal_strlit("download-file.php?id=");
    reveal_strlit("");
    assert((pat + rest).subrange(0, pat.len() as int) =~= pat);
    crate::text::lemma_replace_once(pat + rest, pat, ""@, 0);
    assert((pat + rest).take(0) + ""@ + (pat + rest).skip(pat.len() as int) =~= rest);
}

/// The link without the `download-file.php?id=` prefix.
fn strip_download_prefix(u: &str) -> (r: String)
    ensures
        r@ == replace_all(u@, "download-file.php?id="@, ""@),
{
    let pat = chars_of("download-file.php?id=");
    let rep = chars_of("");
    proof {
        reveal_strlit("download-file.php?id=");
    }
    string_of(replace(chars_of(u).as_slice(), pat.as_slice(), rep.as_slice()).as_slice())
}

/// Reads the link of the episode file of an anime page.
pub fn get_url(html: &str) -> (r: Option<String>)
    ensures
        opt_view(r) == page_link(html@),
{
    match select_last_attr(html, "a[id=\"alternativeDownloadLink\"]", "href") {
        Some(u) => return Some(strip_download_prefix(u.as_str())),
        None => {},
    }
    match select_last_attr(html, "a[id=\"downloadLink\"]", "href") {
        Some(u) => return Some(strip_download_prefix(u.as_str())),
        None => {},
    }
    match select_last_attr(html, "a[id=\"customDownloadButton\"]", "href") {
        Some(u) => Some(strip_download_prefix(u.as_str())),
        None => None,
    }
}

/// The AniList id of an anime page: the last path segment of its AniList button, as a number.
pub open spec fn page_id(html: Seq<char>) -> Option<int> {
    match last_match_attr(html, "a[id=\"anilist-button\"]"@, "href"@) {
        None => None,
        Some(h) => match url_last_segment(h) {
            Some(Some(seg)) => parse_unsigned(seg, u32::MAX as int),
            _ => None,
        },
    }
}

/// Reads the AniList id of an anime page.
pub fn get_id(html: &str) -> (r: Option<u32>)
    ensures
        match page_id(html@) {
            Some(v) => r == Some(v as u32),
            None => r is None,
        },
{
    let href = match select_last_attr(html, "a[id=\"anilist-button\"]", "href") {
        Some(h) => h,
        None => return None,
    };
    match last_path_segment(href.as_str()) {
        Some(Some(seg)) => {
            proof {
                lemma_parse_unsigned_bound(seg@, u32::MAX as int);
            }
            match parse_decimal(chars_of(seg.as_str()).as_slice(), 0xffff_ffffu64) {
                Some(v) => Some(v as u32),
                None => None,
            }
        },
        _ => None,
    }
}

/// A number written as the whole of `s`.
pub open spec fn number_of(s: Option<Seq<char>>) -> Option<int> {
    match s {
        Some(w) => parse_unsigned(w, u32::MAX as int),
        None => None,
    }
}

/// The range of episodes of an anime page. Where the page groups its episodes in ranges, the
/// first number of the first range title and the last number of the last one (with a single
/// range title, none). Else the numbers of the episode links that are numbers: the first and
/// the last.
pub open spec fn page_range(html: Seq<char>) -> Option<(int, int)> {
    match inner_htmls_within(html, "div.range"@, "span.rangetitle"@) {
        Some(spans) if spans.len() > 0 => if spans.len() < 2 {
            None
        } else {
            match (
                number_of(first_word_by(spans[0], CharClass::AsciiWhitespace)),
                number_of(last_word_by(spans.last(), CharClass::AsciiWhitespace)),
            ) {
                (Some(a), Some(b)) => Some((a, b)),
                _ => None,
            }
        },
        _ => match inner_htmls_within(html, "ul.episodes"@, "a"@) {
            None => None,
            Some(items) => {
                let eps = parsed_values(items, u32::MAX as int);
                if eps.len() == 0 {
                    None
                } else {
                    Some((eps[0], eps.last()))
                }
            },
        },
    }
}

/// The number written as the whole of `w`.
fn number_in(w: Option<Vec<char>>) -> (r: Option<u32>)
    ensures
        match number_of(match w { Some(x) => Some(x@), None => None }) {
            Some(v) => r == Some(v as u32),
            None => r is None,
        },
{
    match w {
        Some(x) => {
            proof {
                lemma_parse_unsigned_bound(x@, u32::MAX as int);
            }
            match parse_decimal(x.as_slice(), 0xffff_ffffu64) {
                Some(v) => Some(v as u32),
                None => None,
            }
        },
        None => None,
    }
}

/// The numbers among the texts, in order.
fn numbers_among(items: &Vec<String>) -> (r: Vec<u32>)
    ensures
        r@.map_values(|x: u32| x as int) == parsed_values(strings(items@), u32::MAX as int),
{
    let ghost ps = strings(items@);
    let mut out: Vec<u32> = Vec::new();
    let mut i: usize = 0;
    while i < items.len()
        invariant
            i <= items.len(),
            ps == strings(items@),
            out@.map_values(|x: u32| x as int) == parsed_values(ps.take(i as int), u32::MAX as int),
        decreases items.len() - i,
    {
        assert(ps.take(i + 1).drop_last() == ps.take(i as int));
        assert(ps.take(i + 1).last() == items@[i as int]@);
        proof {
            lemma_parse_unsigned_bound(items@[i as int]@, u32::MAX as int);
        }
        let ghost before = out@;
        match parse_decimal(chars_of(items[i].as_str()).as_slice(), 0xffff_ffffu64) {
            Some(v) => {
                out.push(v as u32);
                assert(out@.map_values(|x: u32| x as int) =~= before.map_values(|x: u32| x as int).push(v as int));
            },
            None => {},
        }
        i += 1;
    }
    assert(ps.take(items.len() as int) == ps);
    out
}

/// Reads the range of episodes of an anime page.
pub fn get_range(html: &str) -> (r: Option<(u32, u32)>)
    ensures
        match page_range(html@) {
            Some((a, b)) => r == Some((a as u32, b as u32)),
            None => r is None,
        },
{
    match select_inner_htmls(html, "div.range", "span.rangetitle") {
        Some(spans) => {
            if spans.len() > 0 {
                if spans.len() < 2 {
                    return None;
                }
                let first = first_word(chars_of(spans[0].as_str()).as_slice(), CharClass::AsciiWhitespace);
                let last = last_word(chars_of(spans[spans.len() - 1].as_str()).as_slice(), CharClass::AsciiWhitespace);
                let a = number_in(first);
                let b = number_in(last);
                return match (a, b) {
                    (Some(a), Some(b)) => Some((a, b)),
                    _ => None,
                };
            }
        },
        None => {},
    }
    let items = match select_inner_htmls(html, "ul.episodes", "a") {
        Some(items) => items,
        None => return None,
    };
    let eps = numbers_among(&items);
    assert(eps@.map_values(|x: u32| x as int).len() == eps@.len());
    if eps.len() == 0 {
        return None;
    }
    Some((eps[0], eps[eps.len() - 1]))
}

/// The anime that an anime page describes.
pub open spec fn page_info(html: Seq<char>) -> Result<AnimeView, ScraperError> {
    match (page_name(html), page_link(html)) {
        (None, _) => Err(ScraperError::Name),
        (_, None) => Err(ScraperError::Url),
        (Some(name), Some(url)) => Ok(AnimeView {
            id: match page_id(html) {
                Some(v) => Some(AnimeId(v as u32)),
                None => None,
            },
            last_watched: None,
            name,
            url,
            range: match page_range(html) {
                Some((a, b)) => Some((a as u32, b as u32)),
                None => None,
            },
        }),
    }
}

/// Reads the anime that an anime page describes.
pub fn get_info(html: &str) -> (r: Result<Anime, ScraperError>)
    ensures
        match page_info(html@) {
            Ok(v) => r matches Ok(a) && a@ == v,
            Err(e) => r matches Err(x) && x == e,
        },
{
    let name = match get_name(html) {
        Some(n) => n,
        None => return Err(ScraperError::Name),
    };
    let url = match get_url(html) {
        Some(u) => u,
        None => return Err(ScraperError::Url),
    };
    let id = match get_id(html) {
        Some(v) => Some(AnimeId(v)),
        None => None,
    };
    let range = match get_range(html) {
        Some((a, b)) => Some(Range::new(EpisodeId(a), EpisodeId(b))),
        None => None,
    };
    Ok(Anime::new(name.as_str(), url.as_str(), id, range))
}

/// What to do with the anime that a search found.
#[derive(Debug, Clone, Copy, PartialEq, Eq)]
pub enum Pick {
    /// Only the anime at this position, which has the AniList id searched for.
    One(usize),
    /// Let the user choose among them.
    Choose,
    /// Keep them all: there is at most one.
    All,
}

/// What to do with the anime that a search found: a search by AniList id keeps the matching
/// anime where there is one; else the user chooses where there are several.
pub open spec fn pick_of(series: Seq<AnimeView>, id: Option<AnimeId>) -> Pick {
    match id {
        Some(i) if matching_position(series, i) is Some => Pick::One(matching_position(series, i)->0 as usize),
        _ => if series.len() > 1 { Pick::Choose } else { Pick::All },
    }
}

/// Decides what to do with the anime that a search found.
pub fn pick_result(series: &[Anime], id: Option<AnimeId>) -> (r: Pick)
    ensures
        r == pick_of(anime_views(series@), id),
{
    match id {
        Some(i) => match find_by_id(series, i) {
            Some(k) => return Pick::One(k),
            None => {},
        },
        None => {},
    }
    if series.len() > 1 { Pick::Choose } else { Pick::All }
}

} // verus!
