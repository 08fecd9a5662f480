use anime_dl::error::{RequestError, SearchError, SystemError};
use anime_dl::lines::find_matches;
use anime_dl::macros::{fill_placeholder, gen_msg, to_snake_case, zfill, zfill_underscored};
use anime_dl::parser::{parse_filename, parse_name, parse_number, parse_percentage, parse_url, recase_string, InfoNum};
use anime_dl::url::is_web_url;
use anime_dl::utils::{get_path, parse_aw_cookie, to_title_case};
use anime_dl::utils::paths::get_path as get_path_among;

#[test]
fn test_session_id_error_display() {
    let err = RequestError::SessionId;
    assert_eq!(err.to_string(), "session ID is required to access this archive");
}

#[test]
fn error_messages() {
    assert_eq!(SearchError::Blocked.to_string(), "Request blocked, retry");
    assert_eq!(SystemError::Overwrite("a.mp4".to_string()).to_string(), "a.mp4 already exists");
    assert_eq!(RequestError::Search.to_string(), "blocked search request");
}

#[test]
fn macros_test_zfill() {
    assert_eq!(zfill_underscored(1, 2), "_01");
    assert_eq!(zfill_underscored(200, 2), "_200");
    assert_eq!(zfill_underscored(15, 3), "_015");
    assert_eq!(zfill(1, 2), "01");
    assert_eq!(zfill(200, 2), "200");
    assert_eq!(zfill(15, 3), "015");
}

#[test]
fn macros_test_gen_url() {
    let url = "https://robe_{}_.tld";
    assert_eq!(fill_placeholder(url, 1, 2), "https://robe_01_.tld");
    assert_eq!(fill_placeholder(url, 14, 2), "https://robe_14_.tld");
    assert_eq!(fill_placeholder(url, 1400, 2), "https://robe_1400_.tld");
    assert_eq!(fill_placeholder(url, 1, 3), "https://robe_001_.tld");
    assert_eq!(fill_placeholder(url, 14, 3), "https://robe_014_.tld");
    assert_eq!(fill_placeholder(url, 1400, 3), "https://robe_1400_.tld");
}

const TITLE_CASES: [(&str, &str); 8] = [
    ("StringaInTitleCase-con-delle-linee", "Stringa In Title Case-con-delle-linee"),
    ("StringaCoNMaiuscole", "Stringa CoN Maiuscole"),
    ("HighSchoolDxD", "High School DxD"),
    ("IDInvaded", "ID Invaded"),
    ("SwordArtOnline2", "Sword Art Online 2"),
    ("SAO2", "SAO 2"),
    ("SlimeTaoshite300-nen", "Slime Taoshite 300-nen"),
    ("HigeWoSoruSoshiteJoshikouseiWoHirou", "Hige Wo Soru Soshite Joshikousei Wo Hirou"),
];

#[test]
fn macros_test_to_title_case() {
    for (s, expected) in TITLE_CASES {
        assert_eq!(recase_string(s, ' ', false), expected);
    }
}

#[test]
fn mod_test_to_title_case() {
    for (s, expected) in TITLE_CASES {
        assert_eq!(to_title_case(s), expected);
    }
}

#[test]
fn test_to_snake_case() {
    let cases = [
        ("StringaInTitleCase-con-delle-linee", "stringa_in_title_case-con-delle-linee"),
        ("StringaCoNMaiuscole", "stringa_con_maiuscole"),
        ("HighSchoolDxD", "high_school_dxd"),
        ("IDInvaded", "id_invaded"),
        ("SwordArtOnline2", "sword_art_online_2"),
        ("SAO2", "sao_2"),
        ("SlimeTaoshite300-nen", "slime_taoshite_300-nen"),
        ("HigeWoSoruSoshiteJoshikouseiWoHirou", "hige_wo_soru_soshite_joshikousei_wo_hirou"),
    ];
    for (s, expected) in cases {
        assert_eq!(to_snake_case(s), expected);
    }
}

#[test]
fn test_parse_name() {
    let url = "https://www.domain.tld/sub/anotherSub/AnimeName/AnimeName_Ep_15_SUB_ITA.mp4";
    let res = parse_name(url).unwrap();
    assert_eq!(res, "AnimeName")
}

#[test]
fn test_parse_filename() {
    let url = "https://www.domain.tld/sub/anotherSub/AnimeName/AnimeName_Ep_15_SUB_ITA.mp4";
    let res = parse_filename(url).unwrap();
    assert_eq!(res, "AnimeName_Ep_15_SUB_ITA.mp4")
}

#[test]
fn test_recase_string() {
    assert_eq!(recase_string("AnimeName", ' ', false), "Anime Name");
    assert_eq!(recase_string("AnimeName", ' ', true), "anime name");
    assert_eq!(recase_string("AnimeName", '_', true), "anime_name");
    assert_eq!(recase_string("AnimeName", '_', false), "Anime_Name");
}

#[test]
fn episode_numbers_and_placeholders() {
    let url = "https://www.domain.tld/AnimeName_Ep_015_SUB_ITA.mp4";
    let info = parse_number(url);
    assert_eq!(info, Some(InfoNum { value: 15, alignment: 3 }));
    assert_eq!(parse_url(url, info), "https://www.domain.tld/AnimeName_Ep_{}_SUB_ITA.mp4");
    assert_eq!(parse_url(url, None), url);
    assert_eq!(parse_number("https://www.domain.tld/file.mp4"), None);
    assert_eq!(parse_percentage("AV: 00:00:03 / 00:23:40 (12%)"), Some(12));
    assert_eq!(parse_percentage("no percent"), None);
    assert_eq!(gen_msg(7, 3, "Name"), "Ep. 007 Name");
}

#[test]
fn test_get_path() {
    let url = "https://www.domain.tld/sub/anotherSub/AnimeName/AnimeName_Ep_15_SUB_ITA.mp4";
    assert_eq!(get_path("root", true, url).unwrap(), "root/anime_name");
    assert_eq!(get_path("custom_root", true, url).unwrap(), "custom_root/anime_name");
    assert_eq!(get_path("root", false, url).unwrap(), "root");
    assert_eq!(get_path("custom_root", false, url).unwrap(), "custom_root");
}

#[test]
fn paths_among_several_directories() {
    let url = "https://www.domain.tld/sub/AnimeName/AnimeName_Ep_15_SUB_ITA.mp4";
    let dirs = vec!["a".to_string(), "b/".to_string()];
    assert_eq!(get_path_among(&dirs, true, url, 0).unwrap(), "b/Anime Name");
    assert_eq!(get_path_among(&dirs, false, url, 0).unwrap(), "a");
    assert_eq!(get_path_among(&dirs, false, url, 5).unwrap(), "b/");
}

#[test]
fn find_a_match() {
    let mut res = Vec::new();
    find_matches("lorem ipsum\ndolor sit amet", "lorem", &mut res);
    assert_eq!(res, b"lorem ipsum");
}

#[test]
fn matches_keep_their_order_and_lose_line_endings() {
    let mut res = Vec::new();
    find_matches("a1\r\nb\na2 \u{e9}\n", "a", &mut res);
    assert_eq!(res, "a1\na2 \u{e9}".as_bytes());
}

const COOKIE_PAGE: &str = r#"<html><script src="/cdn-cgi/apps/head/WvfaYe5SS22u5exoBw70ThuTjHg.js"></script><body><script>document.cookie="AWCookieVerify=295db002e27e3ac26934485002b41564 ; </script></body></html>"#;

#[test]
fn utils_test_extract_cookie() {
    let res = parse_aw_cookie(COOKIE_PAGE).unwrap();
    assert_eq!(res, "AWCookieVerify=295db002e27e3ac26934485002b41564; ");

    let s = r#"<html><script src="/cdn-cgi/apps/head/WvfaYe5SS22u5exoBw70ThuTjHg.js"></script><body><script>document.cookie=" ; </script></body></html>"#;
    let res = parse_aw_cookie(s).unwrap();
    assert_eq!(res, "; ")
}

#[test]
fn mod_test_extract_cookie() {
    let res = parse_aw_cookie(COOKIE_PAGE).unwrap();
    assert_eq!(res, "AWCookieVerify=295db002e27e3ac26934485002b41564; ")
}

#[test]
fn utils_test_is_url() {
    let url = "https://www.domain.tld/sub/anotherSub/AnimeName/AnimeName_Ep_15_SUB_ITA.mp4";
    let not_url = "ciao ciao ciao";
    assert!(is_web_url(url));
    assert!(!is_web_url(not_url));
}

#[test]
fn mod_test_is_url() {
    let url = "https://www.domain.tld/sub/anotherSub/AnimeName/AnimeName_Ep_15_SUB_ITA.mp4";
    let not_url = "ciao ciao ciao";
    assert!(is_web_url(url));
    assert!(!is_web_url(not_url));
}

#[test]
fn test_is_web_url() {
    let url = "https://www.domain.tld/sub/anotherSub/AnimeName/AnimeName_Ep_15_SUB_ITA.mp4";
    let not_url = "ciao ciao ciao";
    assert!(is_web_url(url));
    assert!(!is_web_url(not_url));
}

#[test]
fn cookie_needs_a_value() {
    assert_eq!(parse_aw_cookie("x AWCookieVerify= ;").unwrap(), "; ");
    assert_eq!(parse_aw_cookie("AWCookie=1").unwrap(), "AWCookie=1; ");
}
