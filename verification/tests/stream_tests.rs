use anime_dl::cli::stream::{pick_player, referrer_flag, Player};
use anime_dl::anime::{Anime, AnimeId, EpisodeId};
use anime_dl::cli::stream::{
    classify_line, get_name_from_url, get_percentage, index_by_name, name_from_segment, EpisodeProgress,
    NameIndex, Playback, PlayerLine, Progress,
};

#[test]
fn test_get_percentage() {
    let cases = [
        ("[status] 9%", Some(9)),
        ("[status] 100%", Some(100)),
        ("[status] 09%", Some(9)),
        ("[status] %", None),
        ("[status] no percent", None),
        ("50%", Some(50)),
        ("AV: 00.00% (Paused)", Some(0)),
        ("  75%", Some(75)),
        ("1000%", Some(1000)),
    ];
    for (input, expected) in cases {
        assert_eq!(get_percentage(input), expected, "{input}");
    }
}

#[test]
fn test_get_name_from_url() {
    let cases = [
        ("https://www.domain.tld/sub/anotherSub/AnimeName/AnimeName_Ep_0017_SUB_ITA.mp4", Some("AnimeName")),
        ("https://www.domain.tld/AnimeName_Ep_01.mp4", Some("AnimeName")),
        ("not a url", None),
        ("ftp://", None),
        ("https://www.domain.tld/", None),
        ("https://www.domain.tld/_no_name", Some("")),
    ];
    for (url, expected) in cases {
        assert_eq!(get_name_from_url(url).as_deref(), expected, "{url}");
    }
}

#[test]
fn test_progress_track() {
    for (anime_id, episode) in [(AnimeId(1), EpisodeId(5)), (AnimeId(42), EpisodeId(1))] {
        let mut progress = Progress::new();
        assert!(progress.queue.is_empty());
        progress.track(anime_id, episode);
        assert_eq!(progress.queue.len(), 1);
        let p = progress.queue.front().unwrap();
        assert_eq!(p.anime_id, anime_id);
        assert_eq!(p.episode, episode);
        assert_eq!(p.percentage, 0);
        assert!(!p.updated);
    }
}

#[test]
fn test_progress_track_multiple() {
    for count in [2usize, 3] {
        let mut progress = Progress::new();
        for i in 0..count {
            progress.track(AnimeId(i as u32), EpisodeId(i as u32));
        }
        assert_eq!(progress.queue.len(), count);
    }
}

#[test]
fn test_progress_update() {
    for (initial, new, expected) in [(50u32, 75u32, 75u32), (50, 30, 50), (0, 50, 50), (50, 50, 50)] {
        let mut progress = Progress::new();
        progress.track(AnimeId(1), EpisodeId(1));
        progress.queue.front_mut().unwrap().percentage = initial;
        progress.update(new);
        assert_eq!(progress.queue.front().unwrap().percentage, expected);
    }
}

#[test]
fn test_progress_update_pop() {
    for (updated, percentage, expected_empty) in [(true, 0u32, true), (false, 0, false), (true, 50, false)] {
        let mut progress = Progress::new();
        progress.track(AnimeId(1), EpisodeId(1));
        progress.queue.front_mut().unwrap().updated = updated;
        progress.queue.front_mut().unwrap().percentage = percentage;
        progress.update(0);
        assert_eq!(progress.queue.is_empty(), expected_empty);
    }
}

#[test]
fn test_progress_update_no_queue() {
    for percentage in [50u32, 0] {
        let mut progress = Progress::new();
        progress.update(percentage);
        assert!(progress.queue.is_empty());
    }
}

#[test]
fn test_progress_update_sequence() {
    for (init, first, second, expected) in [(30u32, 50u32, 40u32, 50u32), (0, 50, 30, 50)] {
        let mut progress = Progress::new();
        progress.track(AnimeId(1), EpisodeId(1));
        progress.queue.front_mut().unwrap().percentage = init;
        progress.update(first);
        progress.update(second);
        assert_eq!(progress.queue.front().unwrap().percentage, expected);
    }
}

#[test]
fn test_episode_progress_construction() {
    let cases = [
        (AnimeId(0), EpisodeId(0), 0u32, false),
        (AnimeId(42), EpisodeId(5), 50, false),
        (AnimeId(99), EpisodeId(99), 100, true),
    ];
    for (anime_id, episode, percentage, updated) in cases {
        let p = EpisodeProgress { anime_id, episode, percentage, updated };
        assert_eq!(p.anime_id, anime_id);
        assert_eq!(p.episode, episode);
        assert_eq!(p.percentage, percentage);
        assert_eq!(p.updated, updated);
    }
}

#[test]
fn test_progress_default() {
    let progress = Progress::default();
    assert!(progress.queue.is_empty());
}

#[test]
fn an_episode_is_reported_once_past_the_threshold() {
    let mut progress = Progress::new();
    progress.track(AnimeId(7), EpisodeId(3));
    progress.update(80);
    assert_eq!(progress.pending(), None);
    progress.update(81);
    assert_eq!(progress.pending(), Some((AnimeId(7), EpisodeId(3))));
    progress.mark_sent(false);
    assert_eq!(progress.pending(), Some((AnimeId(7), EpisodeId(3))));
    progress.mark_sent(true);
    assert_eq!(progress.pending(), None);
    progress.update(0);
    assert_eq!(progress.queue.len(), 1);
}

#[test]
fn player_lines_are_classified() {
    assert_eq!(
        classify_line("[cplayer] Opening done: https://x.tld/Name_Ep_02_SUB.mp4  "),
        PlayerLine::Opened("https://x.tld/Name_Ep_02_SUB.mp4".to_string())
    );
    assert_eq!(classify_line("AV: 00:01:02 / 00:20:00 (42%)"), PlayerLine::Position(42));
    assert_eq!(classify_line("AV: 00:01:02 / 00:20:00 (42%) (Paused)"), PlayerLine::Other);
    assert_eq!(classify_line("nothing here"), PlayerLine::Other);
    assert_eq!(name_from_segment(""), None);
    assert_eq!(name_from_segment("Name_Ep_01.mp4").as_deref(), Some("Name"));
}

#[test]
fn playback_follows_opened_episodes() {
    let animes = vec![
        Anime::new("Name", "https://x.tld/Name_Ep_01_SUB.mp4", Some(AnimeId(9)), None),
        Anime::new("Other", "not a url", Some(AnimeId(3)), None),
    ];
    let (names, positions) = index_by_name(&animes);
    assert_eq!(positions, vec![0]);
    assert_eq!(names.get("Name"), Some(Some(AnimeId(9))));
    let mut playback = Playback::new(names);
    assert_eq!(playback.handle(classify_line("Opening done https://x.tld/Name_Ep_02_SUB.mp4")), None);
    assert_eq!(playback.progress.queue.len(), 1);
    assert_eq!(playback.handle(PlayerLine::Position(90)), Some((AnimeId(9), EpisodeId(2))));
    let mut index = NameIndex::new();
    index.insert("a", None);
    index.insert("a", Some(AnimeId(1)));
    assert_eq!(index.get("a"), Some(Some(AnimeId(1))));
    assert_eq!(index.get("b"), None);
}

#[test]
fn players_get_the_referrer() {
    assert_eq!(pick_player(true, true), Some(Player::Mpv));
    assert_eq!(pick_player(false, true), Some(Player::Vlc));
    assert_eq!(pick_player(false, false), None);
    assert_eq!(referrer_flag(Player::Mpv, "https://r.tld"), "--referrer=https://r.tld");
    assert_eq!(referrer_flag(Player::Vlc, "https://r.tld"), "--http-referrer=https://r.tld");
}
