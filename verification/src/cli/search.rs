use vstd::prelude::*;

use crate::cli::{download, stream};
use crate::error::RequestError;
use crate::scraper::Search;
use crate::text::{chars_of, split, split_by, string_of, trim, trim_by, views, CharClass};

verus! {

/// The remote archives that can be searched.
#[derive(Debug, Clone, Copy, Default, PartialEq, Eq)]
pub enum Site {
    #[default]
    AW,
}

/// The command line: one of the commands.
#[derive(Debug)]
pub struct Args {
    pub command: Command,
}

/// The commands of the program.
#[derive(Debug)]
pub enum Command {
    Stream(stream::Args),
    Download(download::Args),
    /// Delete app config.
    Clean,
}

/// The pieces joined, with `sep` between two of them.
pub open spec fn join_with(ps: Seq<Seq<char>>, sep: Seq<char>) -> Seq<char>
    decreases ps.len(),
{
    if ps.len() == 0 {
        Seq::empty()
    } else if ps.len() == 1 {
        ps[0]
    } else {
        join_with(ps.drop_last(), sep) + sep + ps.last()
    }
}

/// `s` with every space made a `+`.
pub open spec fn plus_for_space(s: Seq<char>) -> Seq<char> {
    s.map_values(|c: char| if c == ' ' { '+' } else { c })
}

/// The query of one comma-separated piece of the entries: trimmed, spaces made `+`.
pub open spec fn query_of(p: Seq<char>) -> Seq<char> {
    plus_for_space(trim_by(p, CharClass::Whitespace))
}

/// The queries that the entries make: joined with spaces, split at commas, each piece trimmed
/// with its spaces made `+`.
pub open spec fn queries_of(entries: Seq<Seq<char>>) -> Seq<Seq<char>> {
    split_by(join_with(entries, seq![' ']), CharClass::Comma).map_values(|p: Seq<char>| query_of(p))
}

/// The views of a vector of strings.
pub open spec fn string_views(v: Seq<String>) -> Seq<Seq<char>> {
    v.map_values(|s: String| s@)
}

/// The queries of a list of searches.
pub open spec fn search_strings(v: Seq<Search>) -> Seq<Seq<char>> {
    v.map_values(|s: Search| s.string@)
}

/// The entries joined with `sep` between two of them.
pub fn join_strings(entries: &Vec<String>, sep: char) -> (r: Vec<char>)
    ensures
        r@ == join_with(string_views(entries@), seq![sep]),
{
    let mut out: Vec<char> = Vec::new();
    let mut i: usize = 0;
    while i < entries.len()
        invariant
            i <= entries.len(),
            out@ == join_with(string_views(entries@).take(i as int), seq![sep]),
        decreases entries.len() - i,
    {
        let ghost before = out@;
        if i > 0 {
            out.push(sep);
        }
        let cs = chars_of(entries[i].as_str());
        let mut k: usize = 0;
        let ghost mid = out@;
        while k < cs.len()
            invariant
                k <= cs.len(),
                out@ == mid + cs@.take(k as int),
            decreases cs.len() - k,
        {
            out.push(cs[k]);
            k += 1;
            assert(out@ =~= mid + cs@.take(k as int));
        }
        assert(cs@.take(k as int) == cs@);
        let ghost sv = string_views(entries@);
        assert(sv.take(i + 1).drop_last() =~= sv.take(i as int));
        assert(sv[i as int] == entries@[i as int]@);
        if i == 0 {
            assert(out@ =~= join_with(sv.take(1), seq![sep]));
        } else {
            assert(out@ =~= join_with(sv.take(i + 1), seq![sep]));
        }
        i += 1;
    }
    assert(string_views(entries@).take(entries.len() as int) =~= string_views(entries@));
    out
}

/// `s` with every space made a `+`.
pub fn spaces_to_plus(s: &[char]) -> (r: Vec<char>)
    ensures
        r@ == plus_for_space(s@),
{
    let mut out: Vec<char> = Vec::new();
    let mut i: usize = 0;
    while i < s.len()
        invariant
            i <= s.len(),
            out@ == plus_for_space(s@.take(i as int)),
        decreases s.len() - i,
    {
        let c = s[i];
        out.push(if c == ' ' { '+' } else { c });
        i += 1;
        assert(out@ =~= plus_for_space(s@.take(i as int)));
    }
    assert(s@.take(s.len() as int) == s@);
    out
}

/// The searches that the command line entries ask for.
pub fn get_from_input(entries: Vec<String>) -> (r: Result<Vec<Search>, RequestError>)
    ensures
        r matches Ok(v) && search_strings(v@) == queries_of(string_views(entries@))
            && forall|i: int| 0 <= i < v@.len() ==> (#[trigger] v@[i]).id is None,
{
    let joined = join_strings(&entries, ' ');
    let pieces = split(joined.as_slice(), CharClass::Comma);
    let ghost ps = split_by(joined@, CharClass::Comma);
    let mut out: Vec<Search> = Vec::new();
    let mut i: usize = 0;
    while i < pieces.len()
        invariant
            i <= pieces.len(),
            views(pieces@) == ps,
            ps.len() == pieces.len(),
            search_strings(out@) == ps.map_values(|p: Seq<char>| query_of(p)).take(i as int),
            forall|k: int| 0 <= k < out@.len() ==> (#[trigger] out@[k]).id is None,
        decreases pieces.len() - i,
    {
        assert(views(pieces@)[i as int] == pieces@[i as int]@);
        let t = trim(pieces[i].as_slice(), CharClass::Whitespace);
        let q = spaces_to_plus(t.as_slice());
        let s = string_of(q.as_slice());
        let ghost before = out@;
        out.push(Search::new(s.as_str(), None));
        i += 1;
        assert(search_strings(out@) =~= ps.map_values(|p: Seq<char>| query_of(p)).take(i as int)) by {
            assert(search_strings(before).len() == before.len());
        }
    }
    assert(ps.map_values(|p: Seq<char>| query_of(p)).take(i as int) =~= ps.map_values(|p: Seq<char>| query_of(p)));
    Ok(out)
}

/// The non-empty pieces of a split.
pub open spec fn nonempty(ps: Seq<Seq<char>>) -> Seq<Seq<char>>
    decreases ps.len(),
{
    if ps.len() == 0 {
        Seq::empty()
    } else if ps.last().len() == 0 {
        nonempty(ps.drop_last())
    } else {
        nonempty(ps.drop_last()).push(ps.last())
    }
}

/// The query made from a title of the watching list: its first three words, joined by `+`.
pub open spec fn title_query(title: Seq<char>) -> Seq<char> {
    let words = nonempty(split_by(title, CharClass::AsciiWhitespace));
    join_with(if words.len() > 3 { words.take(3) } else { words }, seq!['+'])
}

/// The query of a title is made of its first words, three of them where it has at least three
/// and all of them otherwise, joined by `+`.
pub proof fn law_title_query_first_three_words(title: Seq<char>)
    ensures
        title_query(title) == join_with(
            nonempty(split_by(title, CharClass::AsciiWhitespace)).take(
                if nonempty(split_by(title, CharClass::AsciiWhitespace)).len() < 3 {
                    nonempty(split_by(title, CharClass::AsciiWhitespace)).len() as int
                } else {
                    3
                },
            ),
            seq!['+'],
        ),
{
    let words = nonempty(split_by(title, CharClass::AsciiWhitespace));
    if words.len() <= 3 {
        assert(words.take(words.len() as int) =~= words);
    }
}

/// The query made from a title of the watching list.
pub fn search_string_from_title(title: &str) -> (r: String)
    ensures
        r@ == title_query(title@),
{
    let cs = chars_of(title);
    let pieces = split(cs.as_slice(), CharClass::AsciiWhitespace);
    let ghost ps = split_by(cs@, CharClass::AsciiWhitespace);
    let mut words: Vec<String> = Vec::new();
    let mut i: usize = 0;
    while i < pieces.len()
        invariant
            i <= pieces.len(),
            views(pieces@) == ps,
            ps.len() == pieces.len(),
            cs@ == title@,
            string_views(words@) == nonempty(ps.take(i as int)),
        decreases pieces.len() - i,
    {
        assert(views(pieces@)[i as int] == pieces@[i as int]@);
        assert(ps.take(i + 1).drop_last() =~= ps.take(i as int));
        let ghost before = words@;
        if pieces[i].len() > 0 {
            words.push(string_of(pieces[i].as_slice()));
            assert(string_views(words@) =~= string_views(before).push(pieces@[i as int]@));
        }
        i += 1;
    }
    assert(ps.take(pieces.len() as int) =~= ps);
    let mut first: Vec<String> = Vec::new();
    let mut k: usize = 0;
    let limit: usize = if words.len() > 3 { 3 } else { words.len() };
    while k < limit
        invariant
            k <= limit <= words.len(),
            string_views(first@) == string_views(words@).take(k as int),
        decreases limit - k,
    {
        let ghost before = first@;
        first.push(words[k].clone());
        k += 1;
        assert(string_views(first@) =~= string_views(words@).take(k as int)) by {
            assert(string_views(before).len() == before.len());
        }
    }
    let ghost wv = string_views(words@);
    assert(string_views(first@) =~= (if wv.len() > 3 { wv.take(3) } else { wv }));
    let joined = join_strings(&first, '+');
    string_of(joined.as_slice())
}

/// Whether the anime are taken from the watching list: where asked, or where no entry is given.
pub fn wants_watching_list(watching: bool, entries: &Vec<String>) -> (r: bool)
    ensures
        r == (watching || entries@.len() == 0),
{
    watching || entries.len() == 0
}

} // verus!
