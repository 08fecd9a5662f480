use anime_dl::anilist::{AnilistId, MediaListStatus, Progress, UserId, WatchingAnime, update_status};
use anime_dl::anime::{AnimeId, EpisodeId};

#[test]
fn test_anilist_id_from_str() {
    for (s, expected) in [("42", 42u32), ("0", 0), ("999999", 999999)] {
        assert_eq!(AnilistId::from_str(s).unwrap(), AnilistId(expected));
    }
}

#[test]
fn test_anilist_id_from_str_err() {
    for s in ["abc", "-1", ""] {
        assert!(AnilistId::from_str(s).is_err());
    }
}

#[test]
fn test_anilist_id_display() {
    for (input, expected) in [(42u32, "42"), (0, "0")] {
        assert_eq!(AnilistId(input).to_string(), expected);
    }
}

#[test]
fn test_watching_anime_watched() {
    for (watched, expected) in [(5i64, 5u32), (0, 0), (-3, 0)] {
        let anime = WatchingAnime::new(watched, 1, "Test");
        assert_eq!(anime.watched(), expected);
    }
}

#[test]
fn test_watching_anime_title() {
    for (title, expected) in [("My Anime", "My Anime"), ("", ""), ("Special!@#$%", "Special!@#$%")] {
        let anime = WatchingAnime::new(0, 1, title);
        assert_eq!(anime.title(), expected);
    }
}

#[test]
fn test_watching_anime_id() {
    for (id, expected) in [(42i64, 42u32), (0, 0)] {
        let anime = WatchingAnime::new(0, id, "Test");
        assert_eq!(anime.id(), AnimeId(expected));
    }
}

#[test]
fn test_progress_latest() {
    for (progress, expected) in [(5i64, 5u32), (0, 0), (100, 100)] {
        let p = Progress { episodes: 12, progress };
        assert_eq!(p.latest(), EpisodeId(expected));
    }
}

#[test]
fn test_progress_has_seen() {
    for (progress, ep, expected) in [(5i64, 3u32, true), (5, 5, true), (5, 6, false), (0, 0, true)] {
        let p = Progress { episodes: 12, progress };
        assert_eq!(p.has_seen(EpisodeId(ep)), expected);
    }
}

#[test]
fn test_progress_is_last() {
    for (episodes, ep, expected) in [(12i64, 12u32, true), (12, 13, true), (12, 11, false), (12, 5, false)] {
        let p = Progress { episodes, progress: 0 };
        assert_eq!(p.is_last(EpisodeId(ep)), expected);
    }
}

#[test]
fn test_anilist_id_from() {
    for (input, expected) in [(42u32, 42u32), (0, 0)] {
        let id: AnilistId = input.into();
        assert_eq!(id, AnilistId(expected));
    }
}

#[test]
fn test_user_id_from() {
    for (input, expected) in [(42i64, 42i64), (0, 0), (-1, -1)] {
        let id: UserId = input.into();
        let result: i64 = id.into();
        assert_eq!(result, expected);
    }
}

#[test]
fn test_progress_has_seen_edge() {
    for (progress, ep, expected) in [(5i64, 5u32, true), (5, 10, false), (0, 0, true)] {
        let p = Progress { episodes: 12, progress };
        assert_eq!(p.has_seen(EpisodeId(ep)), expected);
    }
}

#[test]
fn test_progress_is_last_edge() {
    for (episodes, ep, expected) in [(1i64, 1u32, true), (0, 0, true), (100, 50, false)] {
        let p = Progress { episodes, progress: 0 };
        assert_eq!(p.is_last(EpisodeId(ep)), expected);
    }
}

#[test]
fn test_watching_anime_watched_edge() {
    for (watched, expected) in [(-5i64, 0u32), (100, 100)] {
        let anime = WatchingAnime::new(watched, 1, "Test");
        assert_eq!(anime.watched(), expected);
    }
}

#[test]
fn test_watching_anime_all_methods() {
    let cases = [(3i64, 42i64, "Test Anime", 3u32, AnimeId(42)), (0, 1, "A", 0, AnimeId(1))];
    for (watched, id, title, exp_watched, exp_id) in cases {
        let anime = WatchingAnime::new(watched, id, title);
        assert_eq!(anime.title(), title);
        assert_eq!(anime.watched(), exp_watched);
        assert_eq!(anime.id(), exp_id);
    }
}

#[test]
fn update_status_follows_progress() {
    let p = Progress { episodes: 12, progress: 5 };
    assert_eq!(update_status(Some(p), EpisodeId(3)), None);
    assert_eq!(update_status(Some(p), EpisodeId(6)), Some(MediaListStatus::Current));
    assert_eq!(update_status(Some(p), EpisodeId(12)), Some(MediaListStatus::Completed));
    assert_eq!(update_status(None, EpisodeId(1)), Some(MediaListStatus::Current));
}

#[test]
fn oauth_url_names_the_client() {
    assert_eq!(
        anime_dl::anilist::oauth_url(AnilistId(4047)),
        "https://anilist.co/api/v2/oauth/authorize?response_type=token&client_id=4047"
    );
    assert_eq!(AnilistId::or_default(None), AnilistId(4047));
    assert_eq!(AnilistId::or_default(Some(AnilistId(7))), AnilistId(7));
}
