use vstd::prelude::*;

use crate::error::TuiError;
use crate::order::{lemma_sorted_set_of, sorted_set_of, sorted_unique, sorted_unique_of};
use crate::range::{expand_bounds, lemma_range_bounds_bound, parse_bounds_until, range_bounds_until, span};
use crate::text::{
    chars_of, lemma_parse_unsigned_bound, parse_decimal, parse_unsigned, split, split_by, trim,
    trim_by, views, CharClass,
};
use crate::ui::input::as_u64s;

pub use crate::ui::input::Command;

verus! {

/// The indices that one item of a selection names: a number names itself, a range the indices
/// from its start up to its end, an open range or one past `limit` being cut at `limit`.
pub open spec fn index_token(tok: Seq<char>, limit: int) -> Option<Seq<int>> {
    match parse_unsigned(tok, usize::MAX as int) {
        Some(n) => Some(seq![n]),
        None => match range_bounds_until(tok, Some(limit), usize::MAX as int) {
            Some((a, b)) => Some(span(a, b)),
            None => None,
        },
    }
}

/// The indices that the items of a selection name, in order: empty pieces are skipped, the
/// others trimmed of white space; `None` when an item names nothing.
pub open spec fn index_values(ps: Seq<Seq<char>>, limit: int) -> Option<Seq<int>>
    decreases ps.len(),
{
    if ps.len() == 0 {
        Some(Seq::<int>::empty())
    } else {
        match index_values(ps.drop_last(), limit) {
            None => None,
            Some(prev) => if ps.last().len() == 0 {
                Some(prev)
            } else {
                match index_token(trim_by(ps.last(), CharClass::Whitespace), limit) {
                    Some(v) => Some(prev + v),
                    None => None,
                }
            },
        }
    }
}

/// The pieces of a selection line between spaces and commas.
pub open spec fn index_pieces(line: Seq<char>) -> Seq<Seq<char>> {
    split_by(line, CharClass::SpaceOrComma)
}

/// Indices as `u64`s.
pub open spec fn indices(v: Seq<usize>) -> Seq<u64> {
    v.map_values(|x: usize| x as u64)
}

/// Every value is an index.
pub open spec fn all_indices(v: Seq<int>) -> bool {
    forall|i: int| 0 <= i < v.len() ==> 0 <= #[trigger] v[i] <= usize::MAX
}

/// The indices that one item of a selection names.
pub fn token_indices(tok: &[char], limit: usize) -> (r: Option<Vec<u64>>)
    requires
        limit < usize::MAX,
    ensures
        match index_token(tok@, limit as int) {
            Some(v) => r matches Some(out) && out@ == as_u64s(v) && all_indices(v),
            None => r is None,
        },
{
    proof {
        lemma_parse_unsigned_bound(tok@, usize::MAX as int);
        lemma_range_bounds_bound(tok@, usize::MAX as int);
    }
    match parse_decimal(tok, usize::MAX as u64) {
        Some(n) => {
            let mut out: Vec<u64> = Vec::new();
            out.push(n);
            assert(out@ =~= as_u64s(seq![n as int]));
            Some(out)
        },
        None => match parse_bounds_until(tok, Some(limit as u64), usize::MAX as u64) {
            Some((a, b)) => {
                let more = expand_bounds(a, b);
                assert(more@.map_values(|x: u64| x as int).len() == more@.len());
                assert forall|j: int| 0 <= j < more@.len() implies #[trigger] more@[j] == (span(a as int, b as int)[j] as u64) by {
                    assert(more@.map_values(|x: u64| x as int)[j] == more@[j] as int);
                }
                assert(more@ =~= as_u64s(span(a as int, b as int)));
                Some(more)
            },
            None => None,
        },
    }
}

proof fn lemma_index_values_prefix(ps: Seq<Seq<char>>, k: int, limit: int)
    requires
        0 <= k <= ps.len(),
    ensures
        index_values(ps.take(k), limit) is None ==> index_values(ps, limit) is None,
    decreases ps.len() - k,
{
    if k == ps.len() {
        assert(ps.take(k) == ps);
    } else {
        lemma_index_values_prefix(ps.drop_last(), k, limit);
        assert(ps.drop_last().take(k) == ps.take(k));
    }
}

/// Whether some item of a selection is not a plain number, so that reading it needs the
/// last index on offer.
pub open spec fn has_range_item(ps: Seq<Seq<char>>) -> bool {
    exists|i: int| 0 <= i < ps.len() && #[trigger] ps[i].len() > 0
        && parse_unsigned(trim_by(ps[i], CharClass::Whitespace), usize::MAX as int) is None
}

/// Parses a selection such as `1,2,3`, `1-3` or `1-` into the indices it names, in increasing
/// order and each once; an open range ends at `index_start + content_len - 1`, which is
/// only worked out where an item is not a plain number.
pub fn parse_input(line: &str, index_start: usize, content_len: usize) -> (r: Result<Vec<usize>, TuiError>)
    requires
        has_range_item(index_pieces(line@)) ==> 1 <= index_start + content_len <= usize::MAX,
    ensures
        match index_values(index_pieces(line@), index_start + content_len - 1) {
            None => r == Err::<Vec<usize>, TuiError>(TuiError::InvalidInput),
            Some(vals) => r matches Ok(out) && indices(out@) == sorted_set_of(as_u64s(vals)),
        },
{
    let ghost lim: int = index_start + content_len - 1;
    let cs = chars_of(line);
    let pieces = split(cs.as_slice(), CharClass::SpaceOrComma);
    let ghost ps = views(pieces@);
    let mut selected: Vec<u64> = Vec::new();
    let mut i: usize = 0;
    while i < pieces.len()
        invariant
            i <= pieces.len(),
            lim == index_start + content_len - 1,
            has_range_item(ps) ==> 1 <= index_start + content_len <= usize::MAX,
            ps == views(pieces@),
            ps == index_pieces(line@),
            ps.len() == pieces.len(),
            index_values(ps.take(i as int), lim) matches Some(vals) && selected@ == as_u64s(vals) && all_indices(vals),
        decreases pieces.len() - i,
    {
        let ghost prev = index_values(ps.take(i as int), lim)->0;
        assert(ps.take(i + 1).drop_last() == ps.take(i as int));
        assert(ps[i as int] == pieces@[i as int]@);
        assert(ps.take(i + 1).last() == pieces@[i as int]@);
        if pieces[i].len() > 0 {
            let tok = trim(pieces[i].as_slice(), CharClass::Whitespace);
            proof {
                lemma_parse_unsigned_bound(tok@, usize::MAX as int);
            }
            let found = match parse_decimal(tok.as_slice(), usize::MAX as u64) {
                Some(n) => {
                    let mut one: Vec<u64> = Vec::new();
                    one.push(n);
                    assert(one@ =~= as_u64s(seq![n as int]));
                    Some(one)
                },
                None => {
                    assert(has_range_item(ps)) by {
                        assert(ps[i as int].len() > 0);
                    }
                    let limit = content_len + index_start - 1;
                    token_indices(tok.as_slice(), limit)
                },
            };
            match found {
                Some(more) => {
                    let ghost v = index_token(tok@, lim)->0;
                    assert(more@ == as_u64s(v) && all_indices(v));
                    let ghost before = selected@;
                    let mut k: usize = 0;
                    while k < more.len()
                        invariant
                            k <= more.len(),
                            selected@ == before + more@.take(k as int),
                        decreases more.len() - k,
                    {
                        selected.push(more[k]);
                        k += 1;
                        assert(selected@ =~= before + more@.take(k as int));
                    }
                    assert(more@.take(k as int) =~= more@);
                    assert(selected@ =~= as_u64s(prev + v));
                    assert(all_indices(prev + v)) by {
                        assert forall|j: int| 0 <= j < (prev + v).len() implies 0 <= #[trigger] (prev + v)[j] <= usize::MAX by {
                            if j < prev.len() {
                                assert((prev + v)[j] == prev[j]);
                            } else {
                                assert((prev + v)[j] == v[j - prev.len()]);
                            }
                        }
                    }
                },
                None => {
                    proof {
                        assert(index_values(ps.take(i + 1), lim) is None);
                        lemma_index_values_prefix(ps, i + 1, lim);
                    }
                    return Err(TuiError::InvalidInput);
                },
            }
        }
        i += 1;
    }
    assert(ps.take(pieces.len() as int) == ps);
    let ghost vals = index_values(ps, lim)->0;
    let sorted = sorted_unique(&selected);
    let mut out: Vec<usize> = Vec::new();
    let mut j: usize = 0;
    while j < sorted.len()
        invariant
            j <= sorted.len(),
            sorted_unique_of(sorted@, as_u64s(vals)),
            all_indices(vals),
            indices(out@) == sorted@.take(j as int),
        decreases sorted.len() - j,
    {
        let x = sorted[j];
        assert(as_u64s(vals).contains(x)) by {
            assert(sorted@.contains(x));
            assert(sorted@.to_set().contains(x));
            assert(as_u64s(vals).to_set().contains(x));
        }
        proof {
            let idx = choose|k: int| 0 <= k < as_u64s(vals).len() && as_u64s(vals)[k] == x;
            assert(vals[idx] <= usize::MAX);
            assert(as_u64s(vals)[idx] == vals[idx] as u64);
        }
        let ghost before = out@;
        out.push(x as usize);
        j += 1;
        assert(indices(out@) =~= sorted@.take(j as int)) by {
            assert(indices(before).len() == before.len());
        }
    }
    assert(sorted@.take(j as int) =~= sorted@);
    proof {
        lemma_sorted_set_of(sorted@, as_u64s(vals));
    }
    Ok(out)
}

} // verus!
