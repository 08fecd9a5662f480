use anime_dl::anime::EpisodeId;
use anime_dl::range::Range;

#[test]
fn test_from_str() {
    let cases: [(&str, (u32, u32)); 3] = [("(0..5)", (0, 5)), ("1-5", (1, 5)), ("1-", (1, 1))];
    for (input, expected) in cases {
        let range = Range::<u32>::from_str(input).unwrap();
        assert_eq!((range.start, range.end), expected);
    }
}

#[test]
fn test_expand() {
    let cases: [((u32, u32), &str); 4] = [((0, 1), "(0..1)"), ((1, 5), "1-5"), ((4, 8), "(4..8)"), ((6, 6), "6")];
    for (expected, input) in cases {
        let range1 = Range::from(expected);
        let range2 = Range::<u32>::from_str(input).unwrap();
        assert!(range1.eq(&range2));
    }
}

#[test]
fn test_parse() {
    let cases: [(&str, Option<u32>, (u32, u32)); 6] = [
        ("1-", Some(6), (1, 6)),
        ("4-", Some(6), (4, 6)),
        ("4-8", Some(12), (4, 8)),
        ("4-8", Some(6), (4, 6)),
        ("3", Some(6), (3, 3)),
        ("3", Some(10), (3, 3)),
    ];
    for (input, end, expected) in cases {
        let range = Range::<u32>::parse(input, end).unwrap();
        assert_eq!((range.start, range.end), expected);
    }
}

#[test]
fn range_rejects_strings_without_numbers() {
    assert!(Range::<u32>::from_str("-").is_err());
    assert!(Range::<u32>::from_str("").is_err());
    assert!(Range::<u32>::from_str("abc").is_err());
    assert!(Range::<usize>::parse("x-y", Some(3)).is_err());
}

#[test]
fn range_skips_pieces_that_are_not_numbers() {
    let r = Range::<u32>::from_str("a-3-b-7").unwrap();
    assert_eq!((r.start, r.end), (3, 7));
    let r = Range::<u32>::from_str("((2.9))").unwrap();
    assert_eq!((r.start, r.end), (2, 9));
    let r = Range::<u32>::from_str("+4-99999999999").unwrap();
    assert_eq!((r.start, r.end), (4, 4));
}

#[test]
fn range_parse_open_with_trailing_blanks() {
    let r = Range::<u32>::parse("2-  ", Some(9)).unwrap();
    assert_eq!((r.start, r.end), (2, 9));
    let r = Range::<u32>::parse("2-", None).unwrap();
    assert_eq!((r.start, r.end), (2, 2));
}

#[test]
fn range_expand_values() {
    assert_eq!(Range::new(3u32, 6).expand(), vec![3, 4, 5, 6]);
    assert!(Range::new(6u32, 3).expand().is_empty());
    assert_eq!(Range::new(1usize, 2).expand(), vec![1, 2]);
    assert_eq!(
        Range::new(EpisodeId(2), EpisodeId(3)).expand(),
        vec![EpisodeId(2), EpisodeId(3)]
    );
    let d: Range<u32> = Range::default();
    assert_eq!((d.start, d.end), (1, 0));
}

#[test]
fn range_of_episodes_parses() {
    let r = Range::<EpisodeId>::parse("5-", Some(EpisodeId(12))).unwrap();
    assert_eq!((r.start, r.end), (EpisodeId(5), EpisodeId(12)));
    let r = Range::<EpisodeId>::from_str("7").unwrap();
    assert_eq!((r.start, r.end), (EpisodeId(7), EpisodeId(7)));
}

#[test]
#[should_panic = "Invalid"]
fn test_wrong_range() {
    Range::<u32>::from_str("-").unwrap();
}

#[test]
fn parsing_with_a_limit_cuts_what_from_str_reads() {
    for (input, end) in [("1-", 6u32), ("4-8", 12), ("4-8", 6), ("3", 6), ("(2..9)", 5), ("x", 3)] {
        let free = Range::<u32>::from_str(input);
        let cut = Range::<u32>::parse(input, Some(end));
        match free {
            Err(_) => assert!(cut.is_err()),
            Ok(r) => {
                let c = cut.unwrap();
                assert_eq!(c.start, r.start);
                let expected = if input.trim_end().ends_with('-') || r.end > end { end } else { r.end };
                assert_eq!(c.end, expected);
            }
        }
    }
}

#[test]
fn next_walks_the_range_then_stays_done() {
    let mut r = Range::new(1u32, 3);
    let mut seen = Vec::new();
    while let Some(x) = r.next() {
        seen.push(x);
    }
    assert_eq!(seen, r_expand(1, 3));
    assert_eq!(r.next(), None);
    assert_eq!(r.next(), None);
    let mut e = Range::new(EpisodeId(4), EpisodeId(5));
    assert_eq!(e.next(), Some(EpisodeId(4)));
    assert_eq!(e.next(), Some(EpisodeId(5)));
    assert_eq!(e.next(), None);
    let mut empty = Range::new(5usize, 4);
    assert_eq!(empty.next(), None);
    assert_eq!((empty.start, empty.end), (5, 4));
}

fn r_expand(a: u32, b: u32) -> Vec<u32> {
    Range::new(a, b).expand()
}
