use anime_dl::anime::{gen_url, get_episode_number, Anime, AnimeId, EpisodeId};
use anime_dl::range::Range;

#[test]
fn anime_test_gen_url() {
    let cases: [(&str, u32, u32, usize, &str); 7] = [
        ("https://robe_01_.tld", 1, 42, 2, "https://robe_42_.tld"),
        ("https://robe_01_.tld", 1, 14, 2, "https://robe_14_.tld"),
        ("https://robe_42_.tld", 42, 1, 2, "https://robe_01_.tld"),
        ("https://robe_42_.tld", 42, 14, 2, "https://robe_14_.tld"),
        ("https://robe_042_.tld", 42, 1, 3, "https://robe_001_.tld"),
        ("https://robe_042_.tld", 42, 14, 3, "https://robe_014_.tld"),
        ("https://robe_042_.tld", 42, 1400, 3, "https://robe_1400_.tld"),
    ];
    for (url, old, new, padding, expected) in cases {
        assert_eq!(gen_url(url, old.into(), new.into(), padding), expected);
    }
}

const EPISODE_URLS: [(&str, u32, usize); 3] = [
    ("https://www.domain.tld/sub/anotherSub/AnimeName/AnimeName_Ep_15_SUB_ITA.mp4", 15, 2),
    ("https://www.domain.tld/sub/anotherSub/AnimeName/AnimeName_Ep_016_SUB_ITA.mp4", 16, 3),
    ("https://www.domain.tld/sub/anotherSub/AnimeName/AnimeName_Ep_0017_SUB_ITA.mp4", 17, 4),
];

#[test]
fn test_get_episode_number() {
    for (url, ep, pad) in EPISODE_URLS {
        assert_eq!(get_episode_number(url), Some((ep.into(), pad)));
    }
}

#[test]
fn test_remove_episode_number() {
    for (url, ep, pad) in EPISODE_URLS {
        assert_eq!(get_episode_number(url), Some((ep.into(), pad)));
    }
}

#[test]
fn test_get_episode_number_none() {
    for url in [
        "https://www.domain.tld/file.mp4",
        "https://www.domain.tld/AnimeName_Ep_01_SUB_ITA.mp4_02_extra",
        "",
        "no_digits_here",
        "https://www.domain.tld/_01_02_.mp4",
    ] {
        assert_eq!(get_episode_number(url), None);
    }
}

#[test]
fn test_checked_sub() {
    for (start, rhs, expected) in [(5u32, 2u32, 3u32), (5, 10, 5), (0, 1, 0), (10, 0, 10)] {
        assert_eq!(EpisodeId(start).checked_sub(rhs), EpisodeId(expected));
    }
}

#[test]
fn test_anime_id_from_str() {
    for (s, expected) in [("42", 42u32), ("0", 0), ("999999", 999999)] {
        assert_eq!(AnimeId::from_str(s).unwrap(), AnimeId(expected));
    }
}

#[test]
fn test_anime_id_from_str_err() {
    for s in ["abc", "-1", ""] {
        assert!(AnimeId::from_str(s).is_err());
    }
}

#[test]
fn test_episode_id_from_str() {
    for (s, expected) in [("17", 17u32), ("0", 0)] {
        assert_eq!(EpisodeId::from_str(s).unwrap(), EpisodeId(expected));
    }
}

#[test]
fn test_episode_id_from_str_err() {
    for s in ["xyz", ""] {
        assert!(EpisodeId::from_str(s).is_err());
    }
}

#[test]
fn test_select_from_range() {
    let cases: [(&str, u32, u32, Vec<&str>); 3] = [
        (
            "https://www.domain.tld/AnimeName_Ep_01_SUB_ITA.mp4",
            1,
            3,
            vec![
                "https://www.domain.tld/AnimeName_Ep_01_SUB_ITA.mp4",
                "https://www.domain.tld/AnimeName_Ep_02_SUB_ITA.mp4",
                "https://www.domain.tld/AnimeName_Ep_03_SUB_ITA.mp4",
            ],
        ),
        (
            "https://www.domain.tld/AnimeName_Ep_05_SUB_ITA.mp4",
            1,
            3,
            vec![
                "https://www.domain.tld/AnimeName_Ep_05_SUB_ITA.mp4",
                "https://www.domain.tld/AnimeName_Ep_06_SUB_ITA.mp4",
                "https://www.domain.tld/AnimeName_Ep_07_SUB_ITA.mp4",
            ],
        ),
        (
            "https://www.domain.tld/AnimeName_Ep_005_SUB_ITA.mp4",
            1,
            3,
            vec![
                "https://www.domain.tld/AnimeName_Ep_005_SUB_ITA.mp4",
                "https://www.domain.tld/AnimeName_Ep_006_SUB_ITA.mp4",
                "https://www.domain.tld/AnimeName_Ep_007_SUB_ITA.mp4",
            ],
        ),
    ];
    for (url, start, end, expected) in cases {
        let anime = Anime::new("Test", url, None, None);
        let range = Range::new(EpisodeId(start), EpisodeId(end));
        let result = anime.select_from_range(range);
        assert_eq!(result, expected);
    }
}

#[test]
fn test_select_from_index() {
    let cases: [(&str, u32, u32, Vec<&str>); 2] = [
        (
            "https://www.domain.tld/AnimeName_Ep_01_SUB_ITA.mp4",
            1,
            3,
            vec![
                "https://www.domain.tld/AnimeName_Ep_01_SUB_ITA.mp4",
                "https://www.domain.tld/AnimeName_Ep_02_SUB_ITA.mp4",
                "https://www.domain.tld/AnimeName_Ep_03_SUB_ITA.mp4",
            ],
        ),
        (
            "https://www.domain.tld/AnimeName_Ep_01_SUB_ITA.mp4",
            1,
            1,
            vec!["https://www.domain.tld/AnimeName_Ep_01_SUB_ITA.mp4"],
        ),
    ];
    for (url, start, end, expected) in cases {
        let range = Range::new(EpisodeId(start), EpisodeId(end));
        let anime = Anime::new("Test", url, None, Some(range));
        let result = anime.select_from_index(EpisodeId(start));
        assert_eq!(result, expected);
    }
}

#[test]
fn test_select_from_slice() {
    let cases: [(&str, Vec<u32>, Vec<&str>); 2] = [
        (
            "https://www.domain.tld/AnimeName_Ep_01_SUB_ITA.mp4",
            vec![1, 3, 5],
            vec![
                "https://www.domain.tld/AnimeName_Ep_01_SUB_ITA.mp4",
                "https://www.domain.tld/AnimeName_Ep_03_SUB_ITA.mp4",
                "https://www.domain.tld/AnimeName_Ep_05_SUB_ITA.mp4",
            ],
        ),
        (
            "https://www.domain.tld/AnimeName_Ep_01_SUB_ITA.mp4",
            vec![1],
            vec!["https://www.domain.tld/AnimeName_Ep_01_SUB_ITA.mp4"],
        ),
    ];
    for (url, episodes, expected) in cases {
        let anime = Anime::new("Test", url, None, None);
        let slice: Vec<EpisodeId> = episodes.into_iter().map(EpisodeId).collect();
        let result = anime.select_from_slice(&slice);
        assert_eq!(result, expected);
    }
}

#[test]
fn test_next_episode() {
    for (url, expected) in [
        ("https://www.domain.tld/AnimeName_Ep_15_SUB_ITA.mp4", 15u32),
        ("https://www.domain.tld/file.mp4", 0),
    ] {
        let anime = Anime::new("Test", url, None, None);
        assert_eq!(anime.next_episode(), EpisodeId(expected));
    }
}

#[test]
fn test_last_episode() {
    for (range, expected) in [(None, 0u32), (Some((1u32, 12u32)), 12), (Some((5, 100)), 100)] {
        let range = range.map(|(s, e)| Range::new(EpisodeId(s), EpisodeId(e)));
        let anime = Anime::new("Test", "https://domain.tld/file.mp4", None, range);
        assert_eq!(anime.last_episode(), EpisodeId(expected));
    }
}

#[test]
fn test_with_last_watched() {
    for (initial, expected) in [
        (None, None),
        (Some(EpisodeId(5)), Some(EpisodeId(5))),
        (Some(EpisodeId(0)), Some(EpisodeId(0))),
    ] {
        let anime = Anime::new("Test", "https://domain.tld/file.mp4", None, None);
        assert_eq!(anime.last_watched(), None);
        let anime = match initial {
            Some(ep) => anime.with_last_watched(ep),
            None => anime,
        };
        assert_eq!(anime.last_watched(), expected);
    }
}

#[test]
fn test_anime_accessors() {
    let cases: [(Option<AnimeId>, &str, &str, Option<(u32, u32)>); 2] = [
        (Some(AnimeId(42)), "Name", "https://domain.tld/file.mp4", Some((1, 12))),
        (None, "Test", "https://domain.tld/other.mp4", None),
    ];
    for (id, name, url, range) in cases {
        let range = range.map(|(s, e)| Range::new(EpisodeId(s), EpisodeId(e)));
        let anime = Anime::new(name, url, id, range);
        assert_eq!(anime.id(), id);
        assert_eq!(anime.name(), name);
        assert_eq!(anime.url(), url);
        assert_eq!(anime.range(), range);
    }
}

#[test]
fn test_anime_id_to_i64() {
    for (input, expected) in [(42u32, 42i64), (0, 0)] {
        assert_eq!(i64::from(AnimeId(input)), expected);
    }
}

#[test]
fn test_i64_to_anime_id() {
    for (input, expected) in [(42i64, 42u32), (0, 0)] {
        assert_eq!(AnimeId::from(input), AnimeId(expected));
    }
}

#[test]
fn test_anime_id_to_usize() {
    for (input, expected) in [(42u32, 42usize), (0, 0)] {
        assert_eq!(usize::from(AnimeId(input)), expected);
    }
}

#[test]
fn test_episode_id_to_usize() {
    for (input, expected) in [(5u32, 5usize), (0, 0)] {
        assert_eq!(usize::from(EpisodeId(input)), expected);
    }
}

#[test]
fn test_usize_to_episode_id() {
    for (input, expected) in [(5usize, 5u32), (0, 0)] {
        assert_eq!(EpisodeId::from(input), EpisodeId(expected));
    }
}

#[test]
fn test_u8_to_episode_id() {
    for (input, expected) in [(5u8, 5u32), (0, 0)] {
        assert_eq!(EpisodeId::from(input), EpisodeId(expected));
    }
}

#[test]
fn test_i64_to_episode_id() {
    for (input, expected) in [(5i64, 5u32), (0, 0)] {
        assert_eq!(EpisodeId::from(input), EpisodeId(expected));
    }
}

#[test]
fn test_episode_id_to_i64() {
    for (input, expected) in [(5u32, 5i64), (0, 0)] {
        assert_eq!(i64::from(EpisodeId(input)), expected);
    }
}

#[test]
fn episode_numbers_with_non_ascii_text() {
    assert_eq!(get_episode_number("é_07_ü"), Some((EpisodeId(7), 2)));
    assert_eq!(get_episode_number("x_1_y"), None);
}

#[test]
fn gen_url_replaces_every_occurrence() {
    assert_eq!(gen_url("a_01_b_01_c", EpisodeId(1), EpisodeId(2), 2), "a_02_b_02_c");
    assert_eq!(gen_url("a_01_b", EpisodeId(3), EpisodeId(4), 2), "a_01_b");
}

#[test]
fn id_display() {
    assert_eq!(AnimeId(42).to_string(), "42");
    assert_eq!(EpisodeId(0).to_string(), "0");
}

#[test]
fn slices_and_ranges_agree() {
    let anime = Anime::new("Test", "https://www.domain.tld/AnimeName_Ep_01_SUB_ITA.mp4", None, None);
    let slice: Vec<EpisodeId> = (3..=6).map(EpisodeId).collect();
    assert_eq!(anime.select_from_slice(&slice), anime.select_from_range(Range::new(EpisodeId(3), EpisodeId(6))));
    let shifted = Anime::new("Test", "https://www.domain.tld/AnimeName_Ep_05_SUB_ITA.mp4", None, None);
    let slice: Vec<EpisodeId> = (7..=8).map(EpisodeId).collect();
    assert_eq!(shifted.select_from_slice(&slice), shifted.select_from_range(Range::new(EpisodeId(3), EpisodeId(4))));
}

#[test]
fn generated_urls_read_back() {
    let url = "https://www.domain.tld/AnimeName_Ep_015_SUB_ITA.mp4";
    let (e, p) = get_episode_number(url).unwrap();
    assert_eq!((e, p), (EpisodeId(15), 3));
    for n in [0u32, 7, 42, 999] {
        let made = gen_url(url, e, EpisodeId(n), p);
        assert_eq!(get_episode_number(&made), Some((EpisodeId(n), p)));
    }
}
