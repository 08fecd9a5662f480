use anime_dl::cli::download::{concurrency, target_paths};
use anime_dl::cli::search::wants_watching_list;
use anime_dl::anime::AnimeId;
use anime_dl::cli::download::{camel_to_snake, get_dir_name, get_filename, get_progress_message};
use anime_dl::cli::{get_from_input, search_string_from_title, Site};

#[test]
fn test_get_filename() {
    let cases = [
        ("https://www.domain.tld/sub/anotherSub/AnimeName/AnimeName_Ep_15_SUB_ITA.mp4", "AnimeName_Ep_15_SUB_ITA.mp4"),
        ("https://www.domain.tld/AnimeName_Ep_01_SUB_ITA.mp4", "AnimeName_Ep_01_SUB_ITA.mp4"),
        ("https://www.domain.tld/", ""),
        ("not a url", ""),
        ("ftp://", ""),
    ];
    for (url, expected_ok) in cases {
        match get_filename(url) {
            Ok(res) => assert_eq!(res, expected_ok),
            Err(_) => assert!(expected_ok.is_empty()),
        }
    }
}

#[test]
fn test_get_dir_name() {
    let cases = [
        ("https://www.domain.tld/sub/anotherSub/AnimeName/AnimeName_Ep_15_SUB_ITA.mp4", "AnimeName"),
        ("https://www.domain.tld/sub/anotherSub/AnimeName/AnimeName.mp4", "AnimeName"),
        ("https://www.domain.tld/sub/AnimeName.mp4", "AnimeName"),
        ("https://www.domain.tld/sub/AnimeName", "AnimeName"),
        ("https://www.domain.tld/sub/Anime_Name_Ep_01.mp4", "Anime"),
        ("https://www.domain.tld/sub/file.name.with.dots.mp4", "file.name.with.dots"),
        ("not a url", ""),
        ("ftp://", ""),
    ];
    for (url, expected_ok) in cases {
        match get_dir_name(url) {
            Ok(res) => assert_eq!(res, expected_ok),
            Err(_) => assert!(expected_ok.is_empty()),
        }
    }
}

#[test]
fn test_camel_to_snake() {
    let cases = [
        ("AnimeName", "anime_name"),
        ("IDInvaded", "idinvaded"),
        ("SwordArtOnline2", "sword_art_online2"),
        ("SlimeTaoshite300-nen", "slime_taoshite300-nen"),
        ("", ""),
        ("A", "a"),
        ("a", "a"),
        ("ABC", "abc"),
        ("abc", "abc"),
        ("aBc", "a_bc"),
        ("Test123", "test123"),
        ("Test_123", "test_123"),
        ("HTTPRequest", "httprequest"),
        ("camelCase", "camel_case"),
        ("PascalCase", "pascal_case"),
        ("XMLParser", "xmlparser"),
        ("parseXML", "parse_xml"),
    ];
    for (input, expected) in cases {
        assert_eq!(camel_to_snake(input), expected);
    }
}

#[test]
fn test_get_progress_message() {
    let cases = [
        ("https://www.domain.tld/AnimeName_Ep_15_SUB_ITA.mp4", "AnimeName", "Ep. 15 AnimeName"),
        ("https://www.domain.tld/AnimeName_Ep_016_SUB_ITA.mp4", "AnimeName", "Ep. 016 AnimeName"),
        ("https://www.domain.tld/file.mp4", "AnimeName", "AnimeName"),
        ("https://www.domain.tld/path/AnimeName_Ep_0017_SUB_ITA.mp4", "MyAnime", "Ep. 0017 MyAnime"),
        ("https://www.domain.tld/path/AnimeName_Ep_7_SUB_ITA.mp4", "MyAnime", "MyAnime"),
        ("https://www.domain.tld/path/AnimeName_Ep_007_SUB_ITA.mp4", "MyAnime", "Ep. 007 MyAnime"),
    ];
    for (url, name, expected) in cases {
        assert_eq!(get_progress_message(url, name), expected);
    }
}

fn check_searches(entries: Vec<&str>, expected: Vec<(&str, Option<AnimeId>)>) {
    let entries: Vec<String> = entries.into_iter().map(String::from).collect();
    let result = get_from_input(entries).unwrap();
    assert_eq!(result.len(), expected.len());
    for (got, (exp_str, exp_id)) in result.iter().zip(expected.iter()) {
        assert_eq!(got.string, *exp_str);
        assert_eq!(got.id, *exp_id);
    }
}

#[test]
fn test_get_from_input() {
    check_searches(vec!["bunny girl"], vec![("bunny+girl", None)]);
    check_searches(vec!["bunny girl", "promare"], vec![("bunny+girl+promare", None)]);
    check_searches(vec!["one piece,tokyo ghoul"], vec![("one+piece", None), ("tokyo+ghoul", None)]);
    check_searches(vec!["  spaces  "], vec![("spaces", None)]);
}

#[test]
fn test_site_default() {
    let site = Site::AW;
    assert!(matches!(site, Site::AW));
}

#[test]
fn test_get_from_input_extra() {
    check_searches(
        vec!["one piece,tokyo ghoul,fullmetal"],
        vec![("one+piece", None), ("tokyo+ghoul", None), ("fullmetal", None)],
    );
    check_searches(vec!["  spaced  ,  another  "], vec![("spaced", None), ("another", None)]);
    check_searches(vec!["single"], vec![("single", None)]);
    check_searches(vec!["two words"], vec![("two+words", None)]);
}

#[test]
fn test_get_from_input_preserves_search_structure() {
    for (expected, exp_len) in [(vec![("test", None)], 1usize), (vec![("test+other", None)], 1)] {
        let entries: Vec<String> = expected.iter().map(|(s, _)| String::from(*s)).collect();
        let result = get_from_input(entries).unwrap();
        assert_eq!(result.len(), exp_len);
        for (got, (exp_str, exp_id)) in result.iter().zip(expected.iter()) {
            let exp_id: &Option<AnimeId> = exp_id;
            assert_eq!(got.string, *exp_str);
            assert_eq!(got.id, *exp_id);
        }
    }
}

#[test]
fn watching_titles_become_queries_of_three_words() {
    assert_eq!(search_string_from_title("Seishun Buta Yarou wa Bunny Girl"), "Seishun+Buta+Yarou");
    assert_eq!(search_string_from_title("Promare"), "Promare");
}

#[test]
fn download_targets_and_options() {
    assert_eq!(concurrency(0), 1);
    assert_eq!(concurrency(24), 24);
    assert!(wants_watching_list(false, &Vec::new()));
    assert!(!wants_watching_list(false, &vec!["x".to_string()]));
    let (dest, tmp) = target_paths(
        "root",
        "https://www.domain.tld/sub/AnimeName_Ep_01_SUB_ITA.mp4",
        "https://www.domain.tld/sub/AnimeName_Ep_02_SUB_ITA.mp4",
    )
    .unwrap();
    assert_eq!(dest, "root/anime_name/AnimeName_Ep_02_SUB_ITA.mp4");
    assert_eq!(tmp, "root/anime_name/AnimeName_Ep_02_SUB_ITA.mp4.tmp");
    assert!(target_paths("root", "not a url", "https://x.tld/a.mp4").is_err());
}

#[test]
fn snake_case_only_adds_underscores() {
    for input in ["AnimeName_Ep", "myHTTPServer2Go", "already_snake", "x9Y"] {
        let out = camel_to_snake(input);
        assert_eq!(out.replace('_', ""), input.replace('_', "").to_ascii_lowercase());
        assert_eq!(camel_to_snake(&out), out);
    }
    assert_eq!(camel_to_snake("AnimeName_Ep"), "anime_name_ep");
}
