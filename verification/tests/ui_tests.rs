use anime_dl::error::RequestError;
use anime_dl::anime::Anime;
use anime_dl::range::Range;
use anime_dl::ui::selector::{command_fits, list_fits, select_series, session_id_from, token_from, Outcome};
use anime_dl::anime::EpisodeId;
use anime_dl::tui::input::parse_input as parse_indices;
use anime_dl::ui::input::{command_from_line, get_selection, selection_fits, Command};
use anime_dl::ui::selector::icon;
use anime_dl::utils::tui::{choice_from_line, choice_without_prompt, parse_input as parse_choices, Choice, ChoiceError};

fn episodes(v: Vec<u32>) -> Vec<EpisodeId> {
    v.into_iter().map(EpisodeId).collect()
}

#[test]
fn input_test_parse_input() {
    let cases: Vec<(&str, Vec<usize>)> = vec![
        ("1,2,3", vec![1, 2, 3]),
        ("1-5", vec![1, 2, 3, 4, 5]),
        ("1-3, 6", vec![1, 2, 3, 6]),
        ("1-", vec![1, 2, 3, 4, 5, 6]),
        ("", vec![]),
        ("1-2, 4-6", vec![1, 2, 4, 5, 6]),
    ];
    for (input, expected) in &cases {
        assert_eq!(&parse_indices(input, 1, 6).unwrap(), expected);
    }
    let selections: Vec<(&str, Vec<u32>)> = vec![
        ("1,2,3", vec![1, 2, 3]),
        ("1-5", vec![1, 2, 3, 4, 5]),
        ("1-3, 6", vec![1, 2, 3, 6]),
        ("1-", vec![1, 2, 3, 4, 5, 6]),
        ("", vec![]),
        ("1-2, 4-6", vec![1, 2, 4, 5, 6]),
        ("3", vec![3]),
    ];
    for (input, expected) in selections {
        assert_eq!(get_selection(input, 1, 6).unwrap(), episodes(expected));
    }
}

#[test]
fn test_invalid_input() {
    for input in ["0", "7", "99", "0-3", "abc", "1-3,abc"] {
        let res = get_selection(input, 1, 6);
        assert!(res.is_err(), "expected error for input: {input}");
    }
}

#[test]
fn test_valid_selection() {
    let cases: Vec<(&str, usize, usize, Vec<u32>)> = vec![
        ("1-7", 1, 6, vec![1, 2, 3, 4, 5, 6]),
        ("5-7", 5, 3, vec![5, 6, 7]),
        ("0-2", 0, 3, vec![0, 1, 2]),
        ("0", 0, 6, vec![0]),
    ];
    for (input, index_start, content_len, expected) in cases {
        assert_eq!(get_selection(input, index_start, content_len).unwrap(), episodes(expected));
    }
}

#[test]
fn test_invalid_selection() {
    for (input, index_start, content_len) in [("1", 1, 0), ("8", 5, 3), ("4", 5, 3), ("3", 0, 3)] {
        assert!(get_selection(input, index_start, content_len).is_err());
    }
}

#[test]
fn test_icon() {
    let cases = [
        (Some(EpisodeId(5)), 3, "\u{2714}"),
        (Some(EpisodeId(5)), 5, "\u{2717}"),
        (Some(EpisodeId(5)), 10, "\u{2717}"),
        (None, 0, "\u{2717}"),
        (Some(EpisodeId(1)), 0, "\u{2714}"),
        (Some(EpisodeId(0)), 0, "\u{2717}"),
    ];
    for (last, index, expected) in cases {
        assert_eq!(icon(last, index), expected);
    }
}

fn six_choices() -> Vec<Choice> {
    (1..=6).map(|i| Choice::new(format!("link{i}"), format!("choice{i}"))).collect()
}

fn links(v: &[&str]) -> Vec<String> {
    v.iter().map(|s| s.to_string()).collect()
}

#[test]
fn tui_test_parse_input() {
    let cases: Vec<(&str, Vec<usize>)> = vec![
        ("1,2,3", vec![1, 2, 3]),
        ("1-5", vec![1, 2, 3, 4, 5]),
        ("1-3, 6", vec![1, 2, 3, 6]),
        ("1-", vec![1, 2, 3, 4, 5, 6]),
        ("", vec![]),
        ("1-2, 4-6", vec![1, 2, 4, 5, 6]),
    ];
    for (input, expected) in &cases {
        assert_eq!(&parse_indices(input, 1, 6).unwrap(), expected);
    }

    let choices = six_choices();
    assert_eq!(parse_choices("1,2,3".to_string(), choices.clone()), links(&["link1", "link2", "link3"]));
    assert_eq!(
        parse_choices("1-5".to_string(), choices.clone()),
        links(&["link1", "link2", "link3", "link4", "link5"])
    );
    assert_eq!(
        parse_choices("1-3, 6".to_string(), choices.clone()),
        links(&["link1", "link2", "link3", "link6"])
    );
    assert_eq!(
        parse_choices("1-".to_string(), choices.clone()),
        links(&["link1", "link2", "link3", "link4", "link5", "link6"])
    );
    assert_eq!(
        parse_choices("1-2, 4-6".to_string(), choices.clone()),
        links(&["link1", "link2", "link4", "link5", "link6"])
    );
}

#[test]
fn indices_reject_unknown_items() {
    assert!(parse_indices("1,x", 1, 6).is_err());
    assert_eq!(parse_indices("3\t,1 ,3", 1, 6).unwrap(), vec![1, 3]);
}

#[test]
fn choices_without_selection_give_all_links() {
    let choices = six_choices();
    assert_eq!(parse_choices("none".to_string(), choices.clone()).len(), 6);
    assert_eq!(parse_choices("9".to_string(), choices.clone()), Vec::<String>::new());
    assert_eq!(choice_from_line("9".to_string(), choices.clone()), Err(ChoiceError::EpisodeNotFound));
    assert_eq!(choice_from_line("q".to_string(), choices.clone()), Err(ChoiceError::Quit));
    assert_eq!(choice_without_prompt(&Vec::new()), Some(Err(ChoiceError::Tui)));
    let one = vec![Choice::new("only".to_string(), "the one".to_string())];
    assert_eq!(choice_without_prompt(&one), Some(Ok(links(&["only"]))));
    assert_eq!(choice_without_prompt(&choices), None);
}

#[test]
fn commands_from_lines() {
    assert!(matches!(command_from_line(" q "), Command::Quit));
    assert!(matches!(command_from_line("U"), Command::Unwatched));
    match command_from_line(" 1-3 ") {
        Command::Default(s) => assert_eq!(s, "1-3"),
        _ => panic!("expected a selection"),
    }
}

#[test]
fn answers_to_prompts() {
    assert!(matches!(token_from(Command::Default("abc".to_string())), Outcome::Chosen(t) if t == "abc"));
    assert!(matches!(token_from(Command::Quit), Outcome::Exit));
    assert!(matches!(session_id_from(Command::Default(String::new())), Err(RequestError::SessionId)));
    assert!(matches!(session_id_from(Command::Quit), Ok(Outcome::Exit)));
    assert!(matches!(session_id_from(Command::Default("id".to_string())), Ok(Outcome::Chosen(t)) if t == "id"));
}

#[test]
fn numbers_wider_than_an_episode_are_rejected() {
    assert!(get_selection("4294967297", 1, 6).is_err());
    assert!(get_selection("4294967296", 1, 6).is_err());
    assert!(get_selection("1 4294967297-", 1, 6).is_err());
    assert_eq!(get_selection("6 1", 1, 6).unwrap(), episodes(vec![1, 6]));
}

#[test]
fn plain_numbers_need_no_last_index() {
    assert_eq!(parse_indices("3 1", 0, 0).unwrap(), vec![1, 3]);
    assert_eq!(parse_indices("", usize::MAX, 1).unwrap(), Vec::<usize>::new());
    assert_eq!(parse_indices("2-", 0, 4).unwrap(), vec![2, 3]);
}

#[test]
fn series_selection_keeps_all_on_enter() {
    let series: Vec<Anime> = (0..3).map(|i| Anime::new(&format!("S{i}"), "https://domain.tld/a.mp4", None, None)).collect();
    let cmd = command_from_line("   ");
    assert!(matches!(select_series(&series, &cmd), Ok(Outcome::Chosen(v)) if v == vec![0, 1, 2]));
    let cmd = command_from_line("2-3");
    assert!(matches!(select_series(&series, &cmd), Ok(Outcome::Chosen(v)) if v == vec![1, 2]));
    assert!(matches!(select_series(&series, &Command::Quit), Ok(Outcome::Exit)));
    assert!(select_series(&series, &command_from_line("7")).is_err());
}

#[test]
fn selections_that_fit() {
    assert!(selection_fits("1-3", 1, 6));
    assert!(selection_fits("anything", 1, 0));
    assert!(!selection_fits("1", usize::MAX, 2));
    assert!(!selection_fits("1-4294967295", 1, usize::MAX - 1));
    assert!(selection_fits("x 1-4294967295", 1, usize::MAX - 1));
    assert!(list_fits(3, &Command::Quit));
    assert!(list_fits(3, &command_from_line("1,2")));
    let anime = Anime::new("A", "https://d.tld/A_Ep_01_SUB.mp4", None, Some(Range::new(EpisodeId(1), EpisodeId(12))));
    assert!(command_fits(&anime, &Command::Unwatched, Some(3)));
    assert!(command_fits(&anime, &command_from_line("1-"), None));
    assert!(anime.fits_range(Range::new(EpisodeId(1), EpisodeId(12))));
    assert!(!anime.fits_range(Range::new(EpisodeId(1), EpisodeId(u32::MAX))));
    assert!(anime.fits_range(Range::new(EpisodeId(5), EpisodeId(1))));
    let late = Anime::new("A", "https://d.tld/A_Ep_10_SUB.mp4", None, None);
    assert!(!late.fits_range(Range::new(EpisodeId(1), EpisodeId(u32::MAX - 3))));
    assert!(late.fits_range(Range::new(EpisodeId(1), EpisodeId(u32::MAX - 9))));
}
