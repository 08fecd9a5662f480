use anime_dl::archive::animeworld::{pick_result, Pick};
use anime_dl::anime::{Anime, AnimeId};
use anime_dl::archive::animeworld::{
    cookie_from_page, find_by_id, get_id, get_info, get_name, get_range, get_url, search_links, search_url,
};
use anime_dl::archive::AnimeWorld;
use anime_dl::error::{ScraperError, SearchError};
use anime_dl::scraper::selector::{from, is_valid, try_from};
use anime_dl::scraper::{Search, ScraperConfig};
use anime_dl::anilist::AnilistId;

fn episode_list() -> String {
    let mut html = String::from(r#"<ul class="episodes range acrive: data-range-id="0" style="display: block;">"#);
    for i in 1..=12 {
        html.push_str(&format!(
            r#"<li class="episode"><a data-episode-id="id" data-id="id" data-episode-num="{i}" data-num="{i}" data-base="{i}" data-comment="{i}" href="/play/anime_name/id">{i}</a></li>"#
        ));
    }
    html.push_str("</ul>");
    html
}

const RANGES: &str = r#"
            <div class="range">
                <span data-range-id="0" class="rangetitle active">1 - 55</span>           
                <span data-range-id="1" class="rangetitle">56 - 111</span>           
                <span data-range-id="2" class="rangetitle">112 - 162</span>           
                <span data-range-id="3" class="rangetitle">163 - 212</span>           
                <span data-range-id="4" class="rangetitle">213 - 262</span>           
                <span data-range-id="5" class="rangetitle">263 - 312</span>           
                <span data-range-id="6" class="rangetitle">313 - 362</span>           
                <span data-range-id="7" class="rangetitle">363 - 412</span>           
                <span data-range-id="8" class="rangetitle">413 - 462</span>           
                <span data-range-id="9" class="rangetitle">463 - 500</span>           
            </div>"#;

#[test]
fn archive_test_parse_episodes() {
    assert_eq!(AnimeWorld::parse_episodes(&episode_list()).unwrap(), (1, 12));
    assert_eq!(AnimeWorld::parse_episodes(RANGES).unwrap(), (1, 500));
    let html = format!(r#"<div class="range"></div>{}"#, episode_list());
    assert_eq!(AnimeWorld::parse_episodes(&html).unwrap(), (1, 12));
}

#[test]
fn animeworld_test_parse_episodes() {
    assert_eq!(get_range(&episode_list()).unwrap(), (1, 12));
    assert_eq!(get_range(RANGES).unwrap(), (1, 500));
    let html = format!(r#"<div class="range"></div>{}"#, episode_list());
    assert_eq!(get_range(&html).unwrap(), (1, 12));
}

#[test]
fn test_from_valid() {
    for selectors in ["div", "div.class", "a[href]", "#id"] {
        let s = from(selectors);
        let _ = format!("{s:?}");
    }
}

#[test]
fn selectors_are_checked() {
    assert!(is_valid("div.range"));
    assert!(!is_valid(">>>"));
    assert!(try_from(">>>").is_none());
    assert!(try_from("a.name").is_some());
}

#[test]
fn test_find_cookie() {
    let cases = [
        (
            r#"<html><body><script>document.cookie="SecurityAW-E4=ccf64e38a09ed38849d9ae72e1931e5b ;  path=/";location.href="http://www.animeworld.so/?d=1";</script></body></html>"#,
            "SecurityAW-E4=ccf64e38a09ed38849d9ae72e1931e5b ;",
        ),
        (
            r#"<script>document.cookie="SecurityAW-XY=session-token ; path=/";</script>"#,
            "SecurityAW-XY=session-token ;",
        ),
    ];
    for (text, expected) in cases {
        let res = text
            .split("SecurityAW")
            .nth(1)
            .unwrap()
            .split("path=/")
            .next()
            .map(|s| "SecurityAW".to_owned() + s.trim())
            .unwrap();
        assert_eq!(res, expected)
    }
}

#[test]
fn cookie_is_read_from_the_front_page() {
    let text = r#"<script>document.cookie="SecurityAW-E4=ccf64e38a09ed38849d9ae72e1931e5b ;  path=/";</script>"#;
    assert_eq!(cookie_from_page(text).as_deref(), Some("SecurityAW-E4=ccf64e38a09ed38849d9ae72e1931e5b"));
    assert_eq!(cookie_from_page("no cookie"), None);
}

#[test]
fn test_search_new() {
    for (string, id) in [("bunny girl", None), ("bunny girl", Some(AnimeId(42))), ("", None)] {
        let search = Search::new(string, id);
        assert_eq!(search.string, string);
        assert_eq!(search.id, id);
    }
}

#[test]
fn test_search_new_various() {
    let cases = [("test", None), ("bunny girl", None), ("promare+ita", None), ("", None), ("test", Some(AnimeId(42)))];
    for (string, id) in cases {
        let search = Search::new(string, id);
        assert_eq!(search.string, string);
        assert_eq!(search.id, id);
    }
}

#[test]
fn test_search_clone() {
    for (string, id) in [("test", Some(AnimeId(42))), ("test", None), ("", None)] {
        let search = Search::new(string, id);
        let cloned = search.clone();
        assert_eq!(search.string, cloned.string);
        assert_eq!(search.id, cloned.id);
    }
}

#[test]
fn scraper_config_holds_its_settings() {
    let config = ScraperConfig { cookie: Some("c=1".to_string()), proxy: None, anilist_id: Some(AnilistId(42)) };
    assert_eq!(config.cookie.as_deref(), Some("c=1"));
    assert_eq!(config.anilist_id, Some(AnilistId(42)));
}

const PAGE: &str = r#"
<h1 id="anime-title">Seishun Buta Yarou</h1>
<a id="anilist-button" href="https://anilist.co/anime/101291">AniList</a>
<a id="alternativeDownloadLink" href="https://srv.tld/download-file.php?id=Name_Ep_01_SUB_ITA.mp4">dl</a>
"#;

#[test]
fn anime_pages_are_read() {
    let page = format!("{PAGE}{}", episode_list());
    assert_eq!(get_name(&page).as_deref(), Some("Seishun Buta Yarou"));
    assert_eq!(get_url(&page).as_deref(), Some("https://srv.tld/Name_Ep_01_SUB_ITA.mp4"));
    assert_eq!(get_id(&page), Some(101291));
    let info = get_info(&page).unwrap();
    assert_eq!(info.name(), "Seishun Buta Yarou");
    assert_eq!(info.id(), Some(AnimeId(101291)));
    assert_eq!(info.last_episode().0, 12);
    assert!(matches!(get_info("<p>nothing</p>"), Err(ScraperError::Name)));
    let parsed = AnimeWorld::parser(&page).unwrap();
    assert_eq!(parsed.url(), "https://srv.tld/Name_Ep_01_SUB_ITA.mp4");
}

#[test]
fn search_pages_are_read() {
    let page = r#"<div class="film-list"><a class="name" href="/play/b">B</a><a class="name" href="/play/a">A</a><a class="name">x</a></div>"#;
    assert_eq!(search_links(page).unwrap(), vec!["/play/a".to_string(), "/play/b".to_string()]);
    assert_eq!(search_links("<p></p>"), Err(SearchError::Blocked));
    assert_eq!(search_links(r#"<div class="film-list"></div>"#), Err(SearchError::NoAnime));
    assert_eq!(search_url("bunny+girl"), "https://www.animeworld.ac/search?keyword=bunny+girl");
    let series = vec![
        Anime::new("Name (ITA)", "u", Some(AnimeId(5)), None),
        Anime::new("Name", "u", Some(AnimeId(5)), None),
    ];
    assert_eq!(find_by_id(&series, AnimeId(5)), Some(1));
    assert_eq!(find_by_id(&series, AnimeId(6)), None);
}

#[test]
fn search_results_are_picked() {
    let series = vec![
        Anime::new("Name (ITA)", "u", Some(AnimeId(5)), None),
        Anime::new("Name", "u", Some(AnimeId(5)), None),
    ];
    assert_eq!(pick_result(&series, Some(AnimeId(5))), Pick::One(1));
    assert_eq!(pick_result(&series, Some(AnimeId(6))), Pick::Choose);
    assert_eq!(pick_result(&series[..1], None), Pick::All);
}
