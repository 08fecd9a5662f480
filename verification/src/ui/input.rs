use vstd::prelude::*;

use crate::anime::EpisodeId;
use crate::error::TuiError;
use crate::order::{lemma_sorted_set_of, sorted_set_of, sorted_unique, sorted_unique_of};
use crate::range::{expand_bounds, parse_bounds_until, range_bounds_until, span};
use crate::text::{chars_of, parse_decimal, parse_unsigned, split, split_by, string_of, trim, trim_by, views, CharClass};

verus! {

/// Commands that can be read from the user.
#[derive(Debug, Clone, PartialEq, Eq)]
pub enum Command {
    Quit,
    Unwatched,
    Default(String),
}

/// What a line typed by the user means: `q` or `u` in either case, alone once blanks are
/// trimmed, quit or ask for the unwatched episodes; anything else is a selection.
pub open spec fn command_of(line: Seq<char>) -> (Seq<char>, int) {
    let t = trim_by(line, CharClass::Whitespace);
    if t == seq!['q'] || t == seq!['Q'] {
        (t, 0)
    } else if t == seq!['u'] || t == seq!['U'] {
        (t, 1)
    } else {
        (t, 2)
    }
}

/// Reads the command in a line typed by the user.
pub fn command_from_line(line: &str) -> (r: Command)
    ensures
        command_of(line@).1 == 0 ==> r == Command::Quit,
        command_of(line@).1 == 1 ==> r == Command::Unwatched,
        command_of(line@).1 == 2 ==> (r matches Command::Default(s) && s@ == command_of(line@).0),
{
    let cs = chars_of(line);
    let t = trim(cs.as_slice(), CharClass::Whitespace);
    if t.len() == 1 && (t[0] == 'q' || t[0] == 'Q') {
        assert(t@ == seq![t@[0]]);
        Command::Quit
    } else if t.len() == 1 && (t[0] == 'u' || t[0] == 'U') {
        assert(t@ == seq![t@[0]]);
        Command::Unwatched
    } else {
        Command::Default(string_of(t.as_slice()))
    }
}

/// The largest episode number that an open range can reach when the last item offered is
/// `max`: episode numbers are 32 bits wide.
pub open spec fn episode_limit(max: usize) -> int {
    if max > u32::MAX { u32::MAX as int } else { max as int }
}

/// The episodes that one item of a selection names: a number names itself, and one wider
/// than an episode number names none; a range names its episodes up to `max`.
pub open spec fn token_values(tok: Seq<char>, max: usize) -> Option<Seq<int>> {
    match parse_unsigned(tok, usize::MAX as int) {
        Some(n) => if n <= u32::MAX { Some(seq![n]) } else { None },
        None => match range_bounds_until(tok, Some(episode_limit(max)), u32::MAX as int) {
            Some((a, b)) => Some(span(a, b)),
            None => None,
        },
    }
}

/// The episodes that the items of a selection name, in order; `None` when an item names none.
pub open spec fn selection_values(ps: Seq<Seq<char>>, max: usize) -> Option<Seq<int>>
    decreases ps.len(),
{
    if ps.len() == 0 {
        Some(Seq::<int>::empty())
    } else {
        match selection_values(ps.drop_last(), max) {
            None => None,
            Some(prev) => if ps.last().len() == 0 {
                Some(prev)
            } else {
                match token_values(ps.last(), max) {
                    Some(v) => Some(prev + v),
                    None => None,
                }
            },
        }
    }
}

/// Whether an item is a range that ends at the largest episode number, which cannot be
/// counted through.
pub open spec fn token_overflows(tok: Seq<char>, max: usize) -> bool {
    &&& tok.len() > 0
    &&& parse_unsigned(tok, usize::MAX as int) is None
    &&& range_bounds_until(tok, Some(episode_limit(max)), u32::MAX as int) matches Some((a, b))
    &&& a <= b && b == u32::MAX
}

/// Whether reading the items in order reaches one that overflows.
pub open spec fn selection_overflows(ps: Seq<Seq<char>>, max: usize) -> bool
    decreases ps.len(),
{
    if ps.len() == 0 {
        false
    } else {
        selection_overflows(ps.drop_last(), max)
            || (selection_values(ps.drop_last(), max) is Some && token_overflows(ps.last(), max))
    }
}

/// Every value lies between `lo` and `hi`.
pub open spec fn all_between(vals: Seq<int>, lo: int, hi: int) -> bool {
    forall|i: int| 0 <= i < vals.len() ==> lo <= #[trigger] vals[i] <= hi
}

/// The items of a selection line: the pieces between spaces and commas.
pub open spec fn selection_pieces(line: Seq<char>) -> Seq<Seq<char>> {
    split_by(line, CharClass::SpaceOrComma)
}

/// The episode numbers as `u64`s.
pub open spec fn episode_values(v: Seq<EpisodeId>) -> Seq<u64> {
    v.map_values(|e: EpisodeId| e.0 as u64)
}

/// The values as `u64`s.
pub open spec fn as_u64s(v: Seq<int>) -> Seq<u64> {
    v.map_values(|x: int| x as u64)
}

/// A selection whose first items already name no episode, or overflow, does so whole.
pub proof fn lemma_selection_prefix(ps: Seq<Seq<char>>, k: int, max: usize)
    requires
        0 <= k <= ps.len(),
    ensures
        selection_values(ps.take(k), max) is None ==> selection_values(ps, max) is None,
        selection_overflows(ps.take(k), max) ==> selection_overflows(ps, max),
    decreases ps.len() - k,
{
    if k == ps.len() {
        assert(ps.take(k) == ps);
    } else {
        lemma_selection_prefix(ps.drop_last(), k, max);
        assert(ps.drop_last().take(k) == ps.take(k));
    }
}

proof fn lemma_token_values_bound(tok: Seq<char>, max: usize)
    ensures
        token_values(tok, max) matches Some(v) ==> forall|i: int| 0 <= i < v.len() ==> 0 <= #[trigger] v[i] <= u32::MAX,
{
    crate::range::lemma_range_bounds_bound(tok, u32::MAX as int);
    crate::text::lemma_parse_unsigned_bound(tok, usize::MAX as int);
}

/// Collects the episodes that the items of a selection name.
fn collect_selection(pieces: &Vec<Vec<char>>, max: usize) -> (r: Option<Vec<u64>>)
    requires
        !selection_overflows(views(pieces@), max),
    ensures
        match selection_values(views(pieces@), max) {
            Some(vals) => r matches Some(out) && out@ == as_u64s(vals)
                && forall|i: int| 0 <= i < vals.len() ==> 0 <= #[trigger] vals[i] <= u32::MAX,
            None => r is None,
        },
{
    let ghost ps = views(pieces@);
    let mut out: Vec<u64> = Vec::new();
    let mut i: usize = 0;
    while i < pieces.len()
        invariant
            i <= pieces.len(),
            ps == views(pieces@),
            ps.len() == pieces.len(),
            !selection_overflows(ps, max),
            selection_values(ps.take(i as int), max) matches Some(vals) && out@ == as_u64s(vals)
                && forall|k: int| 0 <= k < vals.len() ==> 0 <= #[trigger] vals[k] <= u32::MAX,
        decreases pieces.len() - i,
    {
        let piece = &pieces[i];
        let ghost prev = selection_values(ps.take(i as int), max)->0;
        assert(ps.take(i + 1).drop_last() == ps.take(i as int));
        assert(ps[i as int] == pieces@[i as int]@);
        assert(ps.take(i + 1).last() == piece@);
        proof {
            lemma_token_values_bound(piece@, max);
            crate::text::lemma_parse_unsigned_bound(piece@, usize::MAX as int);
            crate::range::lemma_range_bounds_bound(piece@, u32::MAX as int);
            lemma_selection_prefix(ps, i + 1, max);
            assert(!selection_overflows(ps.take(i + 1), max));
        }
        if piece.len() > 0 {
            match parse_decimal(piece.as_slice(), usize::MAX as u64) {
                Some(n) => {
                    if n > u32::MAX as u64 {
                        return None;
                    }
                    let ghost before = out@;
                    out.push(n);
                    assert(out@ =~= as_u64s(prev + seq![n as int]));
                },
                None => {
                    let limit: u64 = if (max as u64) > (u32::MAX as u64) { u32::MAX as u64 } else { max as u64 };
                    match parse_bounds_until(piece.as_slice(), Some(limit), u32::MAX as u64) {
                        Some((a, b)) => {
                            let more = expand_bounds(a, b);
                            let ghost before = out@;
                            let mut k: usize = 0;
                            assert(more@.map_values(|x: u64| x as int).len() == more@.len());
                            while k < more.len()
                                invariant
                                    k <= more.len(),
                                    more@.map_values(|x: u64| x as int) == span(a as int, b as int),
                                    out@ == before + more@.take(k as int),
                                decreases more.len() - k,
                            {
                                out.push(more[k]);
                                k += 1;
                                assert(out@ =~= before + more@.take(k as int));
                            }
                            assert(more@.take(k as int) =~= more@);
                            assert forall|j: int| 0 <= j < more@.len() implies #[trigger] more@[j] == (span(a as int, b as int)[j] as u64) by {
                                assert(more@.map_values(|x: u64| x as int)[j] == more@[j] as int);
                            }
                            assert(out@ =~= as_u64s(prev + span(a as int, b as int)));
                        },
                        None => {
                            return None;
                        },
                    }
                },
            }
        } else {
            assert(selection_values(ps.take(i + 1), max) == Some(prev));
        }
        i += 1;
    }
    assert(ps.take(pieces.len() as int) == ps);
    Some(out)
}

/// Whether one item of a selection names episodes, and whether it overflows.
fn check_token(tok: &[char], max: usize) -> (r: (bool, bool))
    ensures
        r.0 == (token_values(tok@, max) is Some),
        r.1 == token_overflows(tok@, max),
{
    proof {
        crate::text::lemma_parse_unsigned_bound(tok@, usize::MAX as int);
        crate::range::lemma_range_bounds_bound(tok@, u32::MAX as int);
    }
    match parse_decimal(tok, usize::MAX as u64) {
        Some(n) => (n <= u32::MAX as u64, false),
        None => {
            let limit: u64 = if (max as u64) > (u32::MAX as u64) { u32::MAX as u64 } else { max as u64 };
            match parse_bounds_until(tok, Some(limit), u32::MAX as u64) {
                Some((a, b)) => (true, tok.len() > 0 && a <= b && b == u32::MAX as u64),
                None => (false, false),
            }
        },
    }
}

/// Whether a selection can be read against the episodes `index_start` to
/// `index_start + content_len - 1` without overflow: what `get_selection` asks of its input.
pub fn selection_fits(line: &str, index_start: usize, content_len: usize) -> (r: bool)
    ensures
        r == (content_len > 0 ==> index_start + content_len <= usize::MAX
            && !selection_overflows(selection_pieces(line@), (index_start + content_len - 1) as usize)),
{
    if content_len == 0 {
        return true;
    }
    if index_start > usize::MAX - content_len {
        return false;
    }
    let max = index_start + content_len - 1;
    let cs = chars_of(line);
    let pieces = split(cs.as_slice(), CharClass::SpaceOrComma);
    let ghost ps = views(pieces@);
    let mut named = true;
    let mut over = false;
    let mut i: usize = 0;
    while i < pieces.len()
        invariant
            i <= pieces.len(),
            ps == views(pieces@),
            ps == selection_pieces(line@),
            ps.len() == pieces.len(),
            named == (selection_values(ps.take(i as int), max) is Some),
            over == selection_overflows(ps.take(i as int), max),
        decreases pieces.len() - i,
    {
        assert(ps.take(i + 1).drop_last() == ps.take(i as int));
        assert(ps[i as int] == pieces@[i as int]@);
        assert(ps.take(i + 1).last() == pieces@[i as int]@);
        let (some, overflows) = check_token(pieces[i].as_slice(), max);
        over = over || (named && overflows);
        named = named && (pieces[i].len() == 0 || some);
        i += 1;
    }
    assert(ps.take(pieces.len() as int) == ps);
    !over
}

/// The episodes of a selection come out in increasing order, each once, and every one of them
/// lies between the first and the last episode offered.
pub proof fn law_selection_in_bounds(out: Seq<u64>, vals: Seq<int>, lo: int, hi: int)
    requires
        sorted_unique_of(out, as_u64s(vals)),
        all_between(vals, lo, hi),
        0 <= lo,
        forall|k: int| 0 <= k < vals.len() ==> #[trigger] vals[k] <= u64::MAX,
    ensures
        forall|i: int, j: int| 0 <= i < j < out.len() ==> out[i] < out[j],
        forall|k: int| 0 <= k < out.len() ==> lo <= #[trigger] out[k] <= hi,
{
    assert forall|k: int| 0 <= k < out.len() implies lo <= #[trigger] out[k] <= hi by {
        assert(out.to_set().contains(out[k]));
        assert(as_u64s(vals).to_set().contains(out[k]));
        let j = choose|j: int| 0 <= j < as_u64s(vals).len() && as_u64s(vals)[j] == out[k];
        assert(as_u64s(vals)[j] == vals[j] as u64);
        assert(lo <= vals[j] <= hi);
    }
}

/// Parses a selection such as `1,2,3`, `1-3` or `1-` into the episode numbers it names, in
/// increasing order and each once; every number must lie between `index_start` and
/// `index_start + content_len - 1`.
pub fn get_selection(line: &str, index_start: usize, content_len: usize) -> (r: Result<Vec<EpisodeId>, TuiError>)
    requires
        content_len > 0 ==> index_start + content_len <= usize::MAX,
        content_len > 0 ==> !selection_overflows(selection_pieces(line@), (index_start + content_len - 1) as usize),
    ensures
        content_len == 0 ==> r == Err::<Vec<EpisodeId>, TuiError>(TuiError::InvalidInput),
        content_len > 0 ==> match selection_values(selection_pieces(line@), (index_start + content_len - 1) as usize) {
            None => r == Err::<Vec<EpisodeId>, TuiError>(TuiError::InvalidInput),
            Some(vals) => if all_between(vals, index_start as int, index_start + content_len - 1) {
                r matches Ok(out) && sorted_unique_of(episode_values(out@), as_u64s(vals))
                    && episode_values(out@) == sorted_set_of(as_u64s(vals))
            } else {
                r == Err::<Vec<EpisodeId>, TuiError>(TuiError::InvalidInput)
            },
        },
{
    if content_len == 0 {
        return Err(TuiError::InvalidInput);
    }
    let max = index_start + content_len - 1;
    let cs = chars_of(line);
    let pieces = split(cs.as_slice(), CharClass::SpaceOrComma);
    let collected = match collect_selection(&pieces, max) {
        Some(v) => v,
        None => return Err(TuiError::InvalidInput),
    };
    let ghost vals = selection_values(selection_pieces(line@), max)->0;
    let mut i: usize = 0;
    while i < collected.len()
        invariant
            i <= collected.len(),
            max == index_start + content_len - 1,
            selection_values(selection_pieces(line@), max) == Some(vals),
            collected@ == as_u64s(vals),
            forall|k: int| 0 <= k < vals.len() ==> 0 <= #[trigger] vals[k] <= u32::MAX,
            forall|k: int| 0 <= k < i ==> index_start <= #[trigger] vals[k] <= max,
        decreases collected.len() - i,
    {
        let n = collected[i];
        assert(as_u64s(vals)[i as int] == vals[i as int] as u64);
        assert(n as int == vals[i as int]);
        if (n as usize) < index_start || (n as usize) > max {
            assert(!(index_start <= vals[i as int] <= max));
            assert(!all_between(vals, index_start as int, index_start + content_len - 1));
            return Err(TuiError::InvalidInput);
        }
        i += 1;
    }
    let sorted = sorted_unique(&collected);
    let mut out: Vec<EpisodeId> = Vec::new();
    let mut j: usize = 0;
    while j < sorted.len()
        invariant
            j <= sorted.len(),
            max == index_start + content_len - 1,
            selection_values(selection_pieces(line@), max) == Some(vals),
            forall|k: int| 0 <= k < vals.len() ==> index_start <= #[trigger] vals[k] <= max,
            sorted_unique_of(sorted@, as_u64s(vals)),
            forall|k: int| 0 <= k < vals.len() ==> 0 <= #[trigger] vals[k] <= u32::MAX,
            collected@ == as_u64s(vals),
            episode_values(out@) == sorted@.take(j as int),
        decreases sorted.len() - j,
    {
        let x = sorted[j];
        assert(as_u64s(vals).contains(x)) by {
            assert(sorted@.contains(x));
            assert(sorted@.to_set().contains(x));
            assert(as_u64s(vals).to_set().contains(x));
        }
        proof {
            let idx = choose|k: int| 0 <= k < as_u64s(vals).len() && as_u64s(vals)[k] == x;
            assert(vals[idx] <= u32::MAX);
            assert(as_u64s(vals)[idx] == vals[idx] as u64);
        }
        let ghost before = out@;
        out.push(EpisodeId(x as u32));
        j += 1;
        assert(episode_values(out@) =~= sorted@.take(j as int)) by {
            assert(episode_values(before).len() == before.len());
        }
    }
    assert(sorted@.take(j as int) =~= sorted@);
    proof {
        lemma_sorted_set_of(sorted@, as_u64s(vals));
    }
    Ok(out)
}

} // verus!
