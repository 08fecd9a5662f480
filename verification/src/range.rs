use vstd::prelude::*;

use crate::anime::EpisodeId;
use crate::error::RangeError;
use crate::text::{
    all_digits, parse_decimal, parse_unsigned, split, split_by, trim, trim_by,
    trim_end_by, keep_before_trailing, views, CharClass,
};

verus! {

/// An inclusive range of values, from `start` to `end`.
#[derive(Debug, Clone, Copy, PartialEq, Eq)]
pub struct Range<T> {
    pub start: T,
    pub end: T,
}

/// The values of the pieces that parse as unsigned integers no larger than `max`, in order.
pub open spec fn parsed_values(ps: Seq<Seq<char>>, max: int) -> Seq<int>
    decreases ps.len(),
{
    if ps.len() == 0 {
        Seq::<int>::empty()
    } else {
        let rest = parsed_values(ps.drop_last(), max);
        match parse_unsigned(ps.last(), max) {
            Some(v) => rest.push(v),
            None => rest,
        }
    }
}

/// The bounds that a range string denotes: parentheses are trimmed from both ends, the
/// rest is split at `,`, `-` and `.`, and the first and the last piece that parse as numbers
/// are the start and the end. `None` when no piece parses.
pub open spec fn range_bounds(s: Seq<char>, max: int) -> Option<(int, int)> {
    let vals = parsed_values(split_by(trim_by(s, CharClass::Parens), CharClass::RangeSeparators), max);
    if vals.len() == 0 {
        None
    } else {
        Some((vals[0], vals.last()))
    }
}

/// Whether the range string is open, that is its last non-blank character is `-`.
pub open spec fn ends_open(s: Seq<char>) -> bool {
    let t = trim_end_by(s, CharClass::Whitespace);
    t.len() > 0 && t.last() == '-'
}

/// The bounds of a range string with an optional upper limit: an open range extends to the
/// limit, and a range that ends beyond the limit is cut there.
pub open spec fn range_bounds_until(s: Seq<char>, limit: Option<int>, max: int) -> Option<(int, int)> {
    match range_bounds(s, max) {
        None => None,
        Some((a, b)) => match limit {
            Some(e) => if ends_open(s) || b > e { Some((a, e)) } else { Some((a, b)) },
            None => Some((a, b)),
        },
    }
}

proof fn lemma_parsed_values_bound(ps: Seq<Seq<char>>, max: int)
    requires
        0 <= max,
    ensures
        forall|i: int| 0 <= i < parsed_values(ps, max).len() ==> 0 <= #[trigger] parsed_values(ps, max)[i] <= max,
    decreases ps.len(),
{
    if ps.len() > 0 {
        lemma_parsed_values_bound(ps.drop_last(), max);
        let body = if ps.last().len() > 0 && ps.last()[0] == '+' { ps.last().skip(1) } else { ps.last() };
        if all_digits(body) {
            crate::text::lemma_digits_value_nonneg(body);
        }
        let rest = parsed_values(ps.drop_last(), max);
        assert forall|i: int| 0 <= i < parsed_values(ps, max).len() implies 0 <= #[trigger] parsed_values(ps, max)[i] <= max by {
            if i < rest.len() {
                assert(parsed_values(ps, max)[i] == rest[i]);
            }
        }
    }
}

pub proof fn lemma_range_bounds_bound(s: Seq<char>, max: int)
    requires
        0 <= max,
    ensures
        range_bounds(s, max) matches Some((a, b)) ==> 0 <= a <= max && 0 <= b <= max,
{
    let ps = split_by(trim_by(s, CharClass::Parens), CharClass::RangeSeparators);
    lemma_parsed_values_bound(ps, max);
    let vals = parsed_values(ps, max);
    if vals.len() > 0 {
        assert(0 <= vals[0] <= max);
        assert(0 <= vals[vals.len() - 1] <= max);
    }
}

/// Parses the bounds of a range string whose values are no larger than `max`.
pub fn parse_bounds(s: &[char], max: u64) -> (r: Option<(u64, u64)>)
    ensures
        match range_bounds(s@, max as int) {
            Some((a, b)) => r == Some((a as u64, b as u64)),
            None => r is None,
        },
{
    let trimmed = trim(s, CharClass::Parens);
    let pieces = split(trimmed.as_slice(), CharClass::RangeSeparators);
    let ghost ps = split_by(trim_by(s@, CharClass::Parens), CharClass::RangeSeparators);
    let mut first: Option<u64> = None;
    let mut last: u64 = 0;
    let mut i: usize = 0;
    proof {
        lemma_parsed_values_bound(ps, max as int);
    }
    while i < pieces.len()
        invariant
            i <= pieces.len(),
            views(pieces@) == ps,
            ps.len() == pieces.len(),
            forall|j: int| 0 <= j < parsed_values(ps, max as int).len() ==> 0 <= #[trigger] parsed_values(ps, max as int)[j] <= max,
            ({
                let vals = parsed_values(ps.take(i as int), max as int);
                match first {
                    None => vals.len() == 0,
                    Some(f) => vals.len() > 0 && f == vals[0] && last == vals.last(),
                }
            }),
        decreases pieces.len() - i,
    {
        assert(ps.take(i + 1).drop_last() == ps.take(i as int));
        assert(views(pieces@)[i as int] == pieces@[i as int]@);
        assert(ps.take(i + 1).last() == pieces@[i as int]@);
        let ghost prev = parsed_values(ps.take(i as int), max as int);
        proof {
            crate::text::lemma_parse_unsigned_bound(pieces@[i as int]@, max as int);
        }
        match parse_decimal(pieces[i].as_slice(), max) {
            Some(v) => {
                assert(parsed_values(ps.take(i + 1), max as int) == prev.push(v as int));
                if first.is_none() {
                    first = Some(v);
                }
                last = v;
            },
            None => {
                assert(parsed_values(ps.take(i + 1), max as int) == prev);
            },
        }
        i += 1;
    }
    assert(ps.take(pieces.len() as int) == ps);
    match first {
        Some(f) => Some((f, last)),
        None => None,
    }
}


/// Parses the bounds of a range string, extending an open range to `limit` and cutting a
/// range that ends beyond it.
pub fn parse_bounds_until(s: &[char], limit: Option<u64>, max: u64) -> (r: Option<(u64, u64)>)
    ensures
        match range_bounds_until(s@, match limit { Some(e) => Some(e as int), None => None }, max as int) {
            Some((a, b)) => r == Some((a as u64, b as u64)),
            None => r is None,
        },
{
    let bounds = parse_bounds(s, max);
    proof {
        lemma_range_bounds_bound(s@, max as int);
    }
    let hi = keep_before_trailing(s, CharClass::Whitespace);
    let is_open = hi > 0 && s[hi - 1] == '-';
    assert(is_open == ends_open(s@));
    match bounds {
        None => None,
        Some((a, b)) => match limit {
            Some(e) => if is_open || b > e { Some((a, e)) } else { Some((a, b)) },
            None => Some((a, b)),
        },
    }
}

/// A range read with a limit never ends past it, and an open range ends at it.
pub proof fn law_range_within_limit(s: Seq<char>, limit: int, max: int)
    ensures
        range_bounds_until(s, Some(limit), max) matches Some((a, b)) ==> b <= limit,
        ends_open(s) && range_bounds(s, max) is Some ==> (range_bounds_until(s, Some(limit), max) matches Some((_, b)) && b == limit),
{
}

/// Reading a range with a limit is reading it without one and then cutting: the same strings
/// fail, the start is the same, and the end is the limit where the string ends with `-` or the
/// end that was read passes the limit.
pub proof fn law_parse_is_from_str_clamped(s: Seq<char>, limit: Option<int>, max: int)
    ensures
        range_bounds_until(s, limit, max) is None <==> range_bounds(s, max) is None,
        range_bounds(s, max) matches Some((a, b)) ==> range_bounds_until(s, limit, max) == Some((a,
            match limit {
                Some(m) => if ends_open(s) || b > m { m } else { b },
                None => b,
            })),
{
}

/// The values that calling `next` on the range `start..=end` yields in turn, until it gives
/// `None`.
pub open spec fn drained(start: int, end: int) -> Seq<int>
    decreases end - start + 1,
{
    if start > end {
        Seq::empty()
    } else {
        seq![start] + drained(start + 1, end)
    }
}

/// Calling `next` until it gives `None` yields every value from the start to the end, both
/// included, in increasing order, which is what `expand` gives; nothing when the start is past
/// the end.
pub proof fn law_next_drains_to_span(start: int, end: int)
    ensures
        drained(start, end) == span(start, end),
    decreases end - start + 1,
{
    if start <= end {
        law_next_drains_to_span(start + 1, end);
        assert(seq![start] + span(start + 1, end) =~= span(start, end));
    } else {
        assert(span(start, end) =~= Seq::<int>::empty());
    }
}

/// The values from `start` to `end`, both included.
pub open spec fn span(start: int, end: int) -> Seq<int> {
    Seq::new(if start > end { 0 } else { (end - start + 1) as nat }, |i: int| start + i)
}

/// The values from `start` to `end`, both included, as `u64`s.
pub fn expand_bounds(start: u64, end: u64) -> (v: Vec<u64>)
    requires
        start > end || end < u64::MAX,
    ensures
        v@.map_values(|x: u64| x as int) == span(start as int, end as int),
{
    let mut v: Vec<u64> = Vec::new();
    if start > end {
        assert(v@.map_values(|x: u64| x as int) =~= span(start as int, end as int));
        return v;
    }
    let mut cur = start;
    while cur <= end
        invariant
            start <= cur <= end + 1,
            end < u64::MAX,
            v@.map_values(|x: u64| x as int) == span(start as int, cur as int - 1),
        decreases end + 1 - cur,
    {
        let ghost before = v@;
        assert(before.map_values(|x: u64| x as int).len() == before.len());
        assert(before.len() == cur - start);
        v.push(cur);
        assert(span(start as int, cur as int).len() == v@.len());
        assert forall|j: int| 0 <= j < v@.len() implies #[trigger] v@[j] as int == span(start as int, cur as int)[j] by {
            if j < before.len() {
                assert(before.map_values(|x: u64| x as int)[j] == span(start as int, cur as int - 1)[j]);
            }
        }
        assert(v@.map_values(|x: u64| x as int) =~= span(start as int, cur as int));
        cur += 1;
    }
    v
}

impl<T> Range<T> {
    pub fn new(start: T, end: T) -> (r: Self)
        ensures
            r.start == start,
            r.end == end,
    {
        Range { start, end }
    }
}

impl<T> From<(T, T)> for Range<T> {
    fn from(pair: (T, T)) -> (r: Self) {
        Range { start: pair.0, end: pair.1 }
    }
}

impl<T> vstd::std_specs::convert::FromSpecImpl<(T, T)> for Range<T> {
    open spec fn obeys_from_spec() -> bool {
        true
    }

    open spec fn from_spec(pair: (T, T)) -> Self {
        Range { start: pair.0, end: pair.1 }
    }
}

impl Default for Range<u32> {
    fn default() -> (r: Self)
        ensures
            r.start == 1 && r.end == 0,
    {
        Range { start: 1, end: 0 }
    }
}

impl Range<u32> {
    /// The next value of the range, which then starts one further; `None`, leaving the range
    /// as it is, once the start has passed the end.
    pub fn next(&mut self) -> (r: Option<u32>)
        requires
            old(self).start > old(self).end || old(self).start < u32::MAX,
        ensures
            old(self).start > old(self).end ==> r is None && *final(self) == *old(self),
            old(self).start <= old(self).end ==> r == Some(old(self).start)
                && final(self).start == old(self).start + 1 && final(self).end == old(self).end,
    {
        if self.start > self.end {
            return None;
        }
        let current = self.start;
        self.start = self.start + 1;
        Some(current)
    }

    /// Parses a range string such as `1-5`, `(0..5)` or `3`.
    pub fn from_str(s: &str) -> (r: Result<Self, RangeError>)
        ensures
            match range_bounds(s@, u32::MAX as int) {
                Some((a, b)) => r == Ok::<Self, RangeError>(Range { start: a as u32, end: b as u32 }),
                None => r == Err::<Self, RangeError>(RangeError::Invalid),
            },
    {
        let cs = crate::text::chars_of(s);
        proof {
            lemma_range_bounds_bound(s@, u32::MAX as int);
        }
        match parse_bounds(cs.as_slice(), u32::MAX as u64) {
            Some((a, b)) => Ok(Range { start: a as u32, end: b as u32 }),
            None => Err(RangeError::Invalid),
        }
    }

    /// Parses a range string, extending an open range to `end` and cutting one beyond it.
    pub fn parse(s: &str, end: Option<u32>) -> (r: Result<Self, RangeError>)
        ensures
            match range_bounds_until(s@, match end { Some(e) => Some(e as int), None => None }, u32::MAX as int) {
                Some((a, b)) => r == Ok::<Self, RangeError>(Range { start: a as u32, end: b as u32 }),
                None => r == Err::<Self, RangeError>(RangeError::Invalid),
            },
    {
        let cs = crate::text::chars_of(s);
        let limit = match end { Some(e) => Some(e as u64), None => None };
        proof {
            lemma_range_bounds_bound(s@, u32::MAX as int);
        }
        match parse_bounds_until(cs.as_slice(), limit, u32::MAX as u64) {
            Some((a, b)) => Ok(Range { start: a as u32, end: b as u32 }),
            None => Err(RangeError::Invalid),
        }
    }

    /// The values of the range in increasing order; empty when `start > end`.
    pub fn expand(&self) -> (v: Vec<u32>)
        requires
            self.start > self.end || self.end < u32::MAX,
        ensures
            v@.map_values(|x: u32| x as int) == span(self.start as int, self.end as int),
    {
        let wide = expand_bounds(self.start as u64, self.end as u64);
        let mut v: Vec<u32> = Vec::new();
        let mut i: usize = 0;
        while i < wide.len()
            invariant
                i <= wide.len(),
                wide@.map_values(|x: u64| x as int) == span(self.start as int, self.end as int),
                v@.map_values(|x: u32| x as int) == wide@.map_values(|x: u64| x as int).take(i as int),
            decreases wide.len() - i,
        {
            let x = wide[i];
            assert(wide@.map_values(|x: u64| x as int).len() == wide@.len());
            assert(wide@.map_values(|x: u64| x as int)[i as int] == x as int);
            assert(span(self.start as int, self.end as int)[i as int] == self.start + i);
            let ghost before = v@;
            assert(before.map_values(|x: u32| x as int).len() == before.len());
            v.push(x as u32);
            i += 1;
            assert forall|j: int| 0 <= j < v@.len() implies #[trigger] v@[j] as int == wide@.map_values(|x: u64| x as int).take(i as int)[j] by {
                if j < before.len() {
                    assert(before.map_values(|x: u32| x as int)[j] == wide@.map_values(|x: u64| x as int).take(i - 1)[j]);
                }
            }
            assert(v@.map_values(|x: u32| x as int) =~= wide@.map_values(|x: u64| x as int).take(i as int));
        }
        assert(wide@.map_values(|x: u64| x as int).take(i as int) =~= wide@.map_values(|x: u64| x as int));
        v
    }
}


impl Range<usize> {
    /// The next value of the range, which then starts one further; `None`, leaving the range
    /// as it is, once the start has passed the end.
    pub fn next(&mut self) -> (r: Option<usize>)
        requires
            old(self).start > old(self).end || old(self).start < usize::MAX,
        ensures
            old(self).start > old(self).end ==> r is None && *final(self) == *old(self),
            old(self).start <= old(self).end ==> r == Some(old(self).start)
                && final(self).start == old(self).start + 1 && final(self).end == old(self).end,
    {
        if self.start > self.end {
            return None;
        }
        let current = self.start;
        self.start = self.start + 1;
        Some(current)
    }

    /// Parses a range string such as `1-5`, `(0..5)` or `3`.
    pub fn from_str(s: &str) -> (r: Result<Self, RangeError>)
        ensures
            match range_bounds(s@, usize::MAX as int) {
                Some((a, b)) => r == Ok::<Self, RangeError>(Range { start: a as usize, end: b as usize }),
                None => r == Err::<Self, RangeError>(RangeError::Invalid),
            },
    {
        let cs = crate::text::chars_of(s);
        proof {
            lemma_range_bounds_bound(s@, usize::MAX as int);
        }
        match parse_bounds(cs.as_slice(), usize::MAX as u64) {
            Some((a, b)) => Ok(Range { start: a as usize, end: b as usize }),
            None => Err(RangeError::Invalid),
        }
    }

    /// Parses a range string, extending an open range to `end` and cutting one beyond it.
    pub fn parse(s: &str, end: Option<usize>) -> (r: Result<Self, RangeError>)
        ensures
            match range_bounds_until(s@, match end { Some(e) => Some(e as int), None => None }, usize::MAX as int) {
                Some((a, b)) => r == Ok::<Self, RangeError>(Range { start: a as usize, end: b as usize }),
                None => r == Err::<Self, RangeError>(RangeError::Invalid),
            },
    {
        let cs = crate::text::chars_of(s);
        let limit = match end { Some(e) => Some(e as u64), None => None };
        proof {
            lemma_range_bounds_bound(s@, usize::MAX as int);
        }
        match parse_bounds_until(cs.as_slice(), limit, usize::MAX as u64) {
            Some((a, b)) => Ok(Range { start: a as usize, end: b as usize }),
            None => Err(RangeError::Invalid),
        }
    }

    /// The values of the range in increasing order; empty when `start > end`.
    pub fn expand(&self) -> (v: Vec<usize>)
        requires
            self.start > self.end || self.end < usize::MAX,
        ensures
            v@.map_values(|x: usize| x as int) == span(self.start as int, self.end as int),
    {
        let wide = expand_bounds(self.start as u64, self.end as u64);
        let mut v: Vec<usize> = Vec::new();
        let mut i: usize = 0;
        while i < wide.len()
            invariant
                i <= wide.len(),
                wide@.map_values(|x: u64| x as int) == span(self.start as int, self.end as int),
                v@.map_values(|x: usize| x as int) == wide@.map_values(|x: u64| x as int).take(i as int),
            decreases wide.len() - i,
        {
            let x = wide[i];
            assert(wide@.map_values(|x: u64| x as int).len() == wide@.len());
            assert(wide@.map_values(|x: u64| x as int)[i as int] == x as int);
            assert(span(self.start as int, self.end as int)[i as int] == self.start + i);
            let ghost before = v@;
            assert(before.map_values(|x: usize| x as int).len() == before.len());
            v.push(x as usize);
            i += 1;
            assert forall|j: int| 0 <= j < v@.len() implies #[trigger] v@[j] as int == wide@.map_values(|x: u64| x as int).take(i as int)[j] by {
                if j < before.len() {
                    assert(before.map_values(|x: usize| x as int)[j] == wide@.map_values(|x: u64| x as int).take(i - 1)[j]);
                }
            }
            assert(v@.map_values(|x: usize| x as int) =~= wide@.map_values(|x: u64| x as int).take(i as int));
        }
        assert(wide@.map_values(|x: u64| x as int).take(i as int) =~= wide@.map_values(|x: u64| x as int));
        v
    }
}

impl Range<EpisodeId> {
    /// The next value of the range, which then starts one further; `None`, leaving the range
    /// as it is, once the start has passed the end.
    pub fn next(&mut self) -> (r: Option<EpisodeId>)
        requires
            old(self).start.0 > old(self).end.0 || old(self).start.0 < u32::MAX,
        ensures
            old(self).start.0 > old(self).end.0 ==> r is None && *final(self) == *old(self),
            old(self).start.0 <= old(self).end.0 ==> r == Some(old(self).start)
                && final(self).start.0 == old(self).start.0 + 1 && final(self).end == old(self).end,
    {
        if self.start.0 > self.end.0 {
            return None;
        }
        let current = self.start;
        self.start = EpisodeId(self.start.0 + 1);
        Some(current)
    }

    /// Parses a range string such as `1-5`, `(0..5)` or `3`.
    pub fn from_str(s: &str) -> (r: Result<Self, RangeError>)
        ensures
            match range_bounds(s@, u32::MAX as int) {
                Some((a, b)) => r == Ok::<Self, RangeError>(Range { start: EpisodeId(a as u32), end: EpisodeId(b as u32) }),
                None => r == Err::<Self, RangeError>(RangeError::Invalid),
            },
    {
        match Range::<u32>::from_str(s) {
            Ok(r) => Ok(Range { start: EpisodeId(r.start), end: EpisodeId(r.end) }),
            Err(e) => Err(e),
        }
    }

    /// Parses a range string, extending an open range to `end` and cutting one beyond it.
    pub fn parse(s: &str, end: Option<EpisodeId>) -> (r: Result<Self, RangeError>)
        ensures
            match range_bounds_until(s@, match end { Some(e) => Some(e.0 as int), None => None }, u32::MAX as int) {
                Some((a, b)) => r == Ok::<Self, RangeError>(Range { start: EpisodeId(a as u32), end: EpisodeId(b as u32) }),
                None => r == Err::<Self, RangeError>(RangeError::Invalid),
            },
    {
        let limit = match end { Some(e) => Some(e.0), None => None };
        match Range::<u32>::parse(s, limit) {
            Ok(r) => Ok(Range { start: EpisodeId(r.start), end: EpisodeId(r.end) }),
            Err(e) => Err(e),
        }
    }

    /// The episodes of the range in increasing order; empty when `start > end`.
    pub fn expand(&self) -> (v: Vec<EpisodeId>)
        requires
            self.start.0 > self.end.0 || self.end.0 < u32::MAX,
        ensures
            v@.map_values(|x: EpisodeId| x.0 as int) == span(self.start.0 as int, self.end.0 as int),
    {
        let raw = Range { start: self.start.0, end: self.end.0 }.expand();
        let mut v: Vec<EpisodeId> = Vec::new();
        let mut i: usize = 0;
        while i < raw.len()
            invariant
                i <= raw.len(),
                v@.map_values(|x: EpisodeId| x.0 as int) == raw@.map_values(|x: u32| x as int).take(i as int),
            decreases raw.len() - i,
        {
            let ghost before = v@;
            assert(before.map_values(|x: EpisodeId| x.0 as int).len() == before.len());
            assert(raw@.map_values(|x: u32| x as int).len() == raw@.len());
            v.push(EpisodeId(raw[i]));
            i += 1;
            assert forall|j: int| 0 <= j < v@.len() implies #[trigger] v@[j].0 as int == raw@.map_values(|x: u32| x as int).take(i as int)[j] by {
                if j < before.len() {
                    assert(before.map_values(|x: EpisodeId| x.0 as int)[j] == raw@.map_values(|x: u32| x as int).take(i - 1)[j]);
                }
            }
            assert(v@.map_values(|x: EpisodeId| x.0 as int) =~= raw@.map_values(|x: u32| x as int).take(i as int));
        }
        assert(raw@.map_values(|x: u32| x as int).take(i as int) =~= raw@.map_values(|x: u32| x as int));
        v
    }
}

} // verus!
