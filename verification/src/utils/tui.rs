use vstd::prelude::*;

use crate::anime::strings;
use crate::order::{lemma_sorted_set_of, sorted_set_of, sorted_unique};
use crate::text::{chars_of, contains, occurs, split, split_by, trim, trim_by, views, CharClass};
use crate::tui::input::{index_token, token_indices};
use crate::ui::input::as_u64s;

verus! {

/// An item offered to the user: the link it stands for and the name shown.
#[derive(Clone, Debug)]
pub struct Choice {
    link: String,
    name: String,
}

impl View for Choice {
    type V = (Seq<char>, Seq<char>);

    closed spec fn view(&self) -> (Seq<char>, Seq<char>) {
        (self.link@, self.name@)
    }
}

impl Choice {
    pub fn new(link: String, name: String) -> (r: Self)
        ensures
            r@ == (link@, name@),
    {
        Choice { link, name }
    }

    pub fn link(&self) -> (r: &str)
        ensures
            r@ == self@.0,
    {
        self.link.as_str()
    }

    pub fn name(&self) -> (r: &str)
        ensures
            r@ == self@.1,
    {
        self.name.as_str()
    }
}

/// What is left of a character once `,` and `.` become spaces and everything that is not a
/// digit, ASCII white space or `-` is dropped.
pub open spec fn kept_char(c: char) -> Option<char> {
    if c == ',' || c == '.' {
        Some(' ')
    } else if ('0' <= c && c <= '9') || c == ' ' || c == '\t' || c == '\n' || c == '\u{c}' || c == '\r' || c == '-' {
        Some(c)
    } else {
        None
    }
}

/// The line with only the characters that a selection is made of.
pub open spec fn cleaned(s: Seq<char>) -> Seq<char>
    decreases s.len(),
{
    if s.len() == 0 {
        s
    } else {
        match kept_char(s.last()) {
            Some(c) => cleaned(s.drop_last()).push(c),
            None => cleaned(s.drop_last()),
        }
    }
}

/// The positions that the items of a selection name, up to `n` for an open range; an item
/// that names nothing is passed over.
pub open spec fn choice_values(ps: Seq<Seq<char>>, n: int) -> Seq<int>
    decreases ps.len(),
{
    if ps.len() == 0 {
        Seq::<int>::empty()
    } else if ps.last().len() == 0 {
        choice_values(ps.drop_last(), n)
    } else {
        match index_token(trim_by(ps.last(), CharClass::Whitespace), n) {
            Some(v) => choice_values(ps.drop_last(), n) + v,
            None => choice_values(ps.drop_last(), n),
        }
    }
}

/// The positions, counted from one, that a selection line names.
pub open spec fn selected_positions(line: Seq<char>, n: int) -> Seq<int> {
    choice_values(split_by(cleaned(line), CharClass::AsciiWhitespace), n)
}

/// The links of all choices.
pub open spec fn all_links(choices: Seq<Choice>) -> Seq<Seq<char>> {
    choices.map_values(|c: Choice| c@.0)
}

/// The links at the given positions, counted from one; positions past the end are passed over.
pub open spec fn links_at(choices: Seq<Choice>, pos: Seq<u64>) -> Seq<Seq<char>>
    decreases pos.len(),
{
    if pos.len() == 0 {
        Seq::<Seq<char>>::empty()
    } else {
        let p = links_at(choices, pos.drop_last());
        let i = pos.last() as int;
        if 1 <= i <= choices.len() {
            p.push(choices[i - 1]@.0)
        } else {
            p
        }
    }
}

/// The links that a selection line picks: those of the positions it names, in increasing
/// order and each once, or all of them where it names none.
pub open spec fn chosen_links(line: Seq<char>, choices: Seq<Choice>) -> Seq<Seq<char>> {
    let sel = sorted_set_of(as_u64s(selected_positions(line, choices.len() as int)));
    if sel.len() == 0 {
        all_links(choices)
    } else {
        links_at(choices, sel)
    }
}

/// Keeps the characters that a selection is made of.
fn clean_line(s: &[char]) -> (r: Vec<char>)
    ensures
        r@ == cleaned(s@),
{
    let mut r: Vec<char> = Vec::new();
    let mut i: usize = 0;
    while i < s.len()
        invariant
            i <= s.len(),
            r@ == cleaned(s@.take(i as int)),
        decreases s.len() - i,
    {
        let c = s[i];
        assert(s@.take(i + 1).drop_last() == s@.take(i as int));
        if c == ',' || c == '.' {
            r.push(' ');
        } else if ('0' <= c && c <= '9') || c == ' ' || c == '\t' || c == '\n' || c == '\u{c}' || c == '\r' || c == '-' {
            r.push(c);
        }
        i += 1;
    }
    assert(s@.take(s.len() as int) == s@);
    r
}

/// The positions that the items name, in order.
fn collect_positions(pieces: &Vec<Vec<char>>, n: usize) -> (r: Vec<u64>)
    requires
        n < usize::MAX,
    ensures
        r@ == as_u64s(choice_values(views(pieces@), n as int)),
{
    let ghost ps = views(pieces@);
    let mut out: Vec<u64> = Vec::new();
    let mut i: usize = 0;
    while i < pieces.len()
        invariant
            i <= pieces.len(),
            n < usize::MAX,
            ps == views(pieces@),
            ps.len() == pieces.len(),
            out@ == as_u64s(choice_values(ps.take(i as int), n as int)),
        decreases pieces.len() - i,
    {
        assert(ps.take(i + 1).drop_last() == ps.take(i as int));
        assert(ps[i as int] == pieces@[i as int]@);
        assert(ps.take(i + 1).last() == pieces@[i as int]@);
        if pieces[i].len() > 0 {
            let tok = trim(pieces[i].as_slice(), CharClass::Whitespace);
            match token_indices(tok.as_slice(), n) {
                Some(more) => {
                    let ghost before = out@;
                    let mut k: usize = 0;
                    while k < more.len()
                        invariant
                            k <= more.len(),
                            out@ == before + more@.take(k as int),
                        decreases more.len() - k,
                    {
                        out.push(more[k]);
                        k += 1;
                        assert(out@ =~= before + more@.take(k as int));
                    }
                    assert(more@.take(k as int) =~= more@);
                    assert(out@ =~= as_u64s(choice_values(ps.take(i + 1), n as int)));
                },
                None => {},
            }
        }
        i += 1;
    }
    assert(ps.take(pieces.len() as int) == ps);
    out
}

/// The links that the user picked with `line`: numbers and ranges of positions counted from
/// one, separated by blanks, commas or dots; all the links where the line names none.
pub fn parse_input(line: String, choices: Vec<Choice>) -> (r: Vec<String>)
    requires
        choices.len() < usize::MAX,
        !selected_positions(line@, choices.len() as int).contains(0),
    ensures
        strings(r@) == chosen_links(line@, choices@),
{
    let cs = chars_of(line.as_str());
    let clean = clean_line(cs.as_slice());
    let pieces = split(clean.as_slice(), CharClass::AsciiWhitespace);
    let selected = collect_positions(&pieces, choices.len());
    let ghost vals = selected_positions(line@, choices.len() as int);
    assert(selected@ == as_u64s(vals));
    let sorted = sorted_unique(&selected);
    proof {
        lemma_sorted_set_of(sorted@, as_u64s(vals));
    }
    let mut out: Vec<String> = Vec::new();
    if sorted.len() == 0 {
        let mut k: usize = 0;
        while k < choices.len()
            invariant
                k <= choices.len(),
                strings(out@) == all_links(choices@).take(k as int),
            decreases choices.len() - k,
        {
            let ghost before = out@;
            out.push(choices[k].link.clone());
            k += 1;
            assert(strings(out@) =~= all_links(choices@).take(k as int)) by {
                assert(strings(before).len() == before.len());
            }
        }
        assert(all_links(choices@).take(k as int) =~= all_links(choices@));
        return out;
    }
    let mut j: usize = 0;
    while j < sorted.len()
        invariant
            j <= sorted.len(),
            strings(out@) == links_at(choices@, sorted@.take(j as int)),
        decreases sorted.len() - j,
    {
        let x = sorted[j];
        assert(sorted@.take(j + 1).drop_last() == sorted@.take(j as int));
        let ghost before = out@;
        if 1 <= x && x <= choices.len() as u64 {
            out.push(choices[(x - 1) as usize].link.clone());
            assert(strings(out@) =~= strings(before).push(choices@[x - 1]@.0)) by {
                assert(strings(before).len() == before.len());
            }
        }
        j += 1;
    }
    assert(sorted@.take(j as int) =~= sorted@);
    out
}

/// Errors of picking among the choices.
#[derive(Debug, Clone, Copy, PartialEq, Eq)]
pub enum ChoiceError {
    /// There is nothing to choose from.
    Tui,
    /// The user asked to quit.
    Quit,
    /// The selection picked nothing.
    EpisodeNotFound,
}

/// The outcome that needs no question to the user: an error where there is nothing to
/// choose from, the only link where there is one choice, and nothing where the user must pick.
pub fn choice_without_prompt(choices: &Vec<Choice>) -> (r: Option<Result<Vec<String>, ChoiceError>>)
    ensures
        choices.len() == 0 ==> r == Some(Err::<Vec<String>, ChoiceError>(ChoiceError::Tui)),
        choices.len() == 1 ==> (r matches Some(Ok(v)) && strings(v@) == seq![choices@[0]@.0]),
        choices.len() > 1 ==> r is None,
{
    if choices.len() == 0 {
        Some(Err(ChoiceError::Tui))
    } else if choices.len() == 1 {
        let mut v: Vec<String> = Vec::new();
        v.push(choices[0].link.clone());
        assert(strings(v@) =~= seq![choices@[0]@.0]);
        Some(Ok(v))
    } else {
        None
    }
}

/// The links that the user's answer picks: a `q` anywhere quits, and a selection that picks
/// nothing is an error.
pub fn choice_from_line(line: String, choices: Vec<Choice>) -> (r: Result<Vec<String>, ChoiceError>)
    requires
        choices.len() < usize::MAX,
        !selected_positions(line@, choices.len() as int).contains(0),
    ensures
        occurs(line@, "q"@) ==> r == Err::<Vec<String>, ChoiceError>(ChoiceError::Quit),
        !occurs(line@, "q"@) ==> match r {
            Ok(v) => strings(v@) == chosen_links(line@, choices@) && v@.len() > 0,
            Err(e) => e == ChoiceError::EpisodeNotFound && chosen_links(line@, choices@).len() == 0,
        },
{
    let cs = chars_of(line.as_str());
    let q = chars_of("q");
    if contains(cs.as_slice(), q.as_slice()) {
        return Err(ChoiceError::Quit);
    }
    let urls = parse_input(line, choices);
    if urls.len() == 0 {
        return Err(ChoiceError::EpisodeNotFound);
    }
    Ok(urls)
}

} // verus!
