use vstd::prelude::*;

use crate::range::{span, Range};
use crate::text::{
    chars_of, decimal, decimal_string, is_digit, parse_decimal, parse_unsigned, replace,
    replace_all, std_parse_u32, string_of, zero_padded, zero_padded_chars,
};

verus! {

/// Identifies an anime on AniList (media ID).
#[derive(Clone, Copy, Debug, Default, PartialEq, Eq, Hash)]
pub struct AnimeId(pub u32);

impl AnimeId {
    /// The identifier in decimal.
    pub fn to_string(&self) -> (r: String)
        ensures
            r@ == decimal(self.0 as nat),
    {
        decimal_string(self.0 as u64)
    }

    /// Parses a decimal identifier, as `u32` parses.
    pub fn from_str(s: &str) -> (r: Result<AnimeId, core::num::ParseIntError>)
        ensures
            match parse_unsigned(s@, u32::MAX as int) {
                Some(v) => r == Ok::<AnimeId, core::num::ParseIntError>(AnimeId(v as u32)),
                None => r is Err,
            },
    {
        match std_parse_u32(s) {
            Ok(v) => Ok(AnimeId(v)),
            Err(e) => Err(e),
        }
    }
}

impl From<u32> for AnimeId {
    fn from(id: u32) -> (r: AnimeId) {
        AnimeId(id)
    }
}

impl vstd::std_specs::convert::FromSpecImpl<u32> for AnimeId {
    open spec fn obeys_from_spec() -> bool {
        true
    }

    open spec fn from_spec(id: u32) -> AnimeId {
        AnimeId(id)
    }
}

impl From<AnimeId> for i64 {
    fn from(id: AnimeId) -> (r: i64) {
        id.0 as i64
    }
}

impl vstd::std_specs::convert::FromSpecImpl<AnimeId> for i64 {
    open spec fn obeys_from_spec() -> bool {
        true
    }

    open spec fn from_spec(id: AnimeId) -> i64 {
        id.0 as i64
    }
}

impl From<i64> for AnimeId {
    fn from(id: i64) -> (r: AnimeId) {
        AnimeId(id as u32)
    }
}

impl vstd::std_specs::convert::FromSpecImpl<i64> for AnimeId {
    open spec fn obeys_from_spec() -> bool {
        true
    }

    open spec fn from_spec(id: i64) -> AnimeId {
        AnimeId(id as u32)
    }
}

impl From<AnimeId> for usize {
    fn from(id: AnimeId) -> (r: usize) {
        id.0 as usize
    }
}

impl vstd::std_specs::convert::FromSpecImpl<AnimeId> for usize {
    open spec fn obeys_from_spec() -> bool {
        true
    }

    open spec fn from_spec(id: AnimeId) -> usize {
        id.0 as usize
    }
}

/// A zero-based episode number.
#[derive(Clone, Copy, Debug, Default, PartialEq, Eq, PartialOrd, Ord, Hash)]
pub struct EpisodeId(pub u32);

impl EpisodeId {
    /// Subtraction that leaves the value unchanged where it would go below zero.
    pub fn checked_sub(self, rhs: u32) -> (r: Self)
        ensures
            r.0 == if self.0 >= rhs { self.0 - rhs } else { self.0 as int },
    {
        if self.0 >= rhs {
            EpisodeId(self.0 - rhs)
        } else {
            self
        }
    }

    /// The episode number in decimal.
    pub fn to_string(&self) -> (r: String)
        ensures
            r@ == decimal(self.0 as nat),
    {
        decimal_string(self.0 as u64)
    }

    /// Parses a decimal episode number, as `u32` parses.
    pub fn from_str(s: &str) -> (r: Result<EpisodeId, core::num::ParseIntError>)
        ensures
            match parse_unsigned(s@, u32::MAX as int) {
                Some(v) => r == Ok::<EpisodeId, core::num::ParseIntError>(EpisodeId(v as u32)),
                None => r is Err,
            },
    {
        match std_parse_u32(s) {
            Ok(v) => Ok(EpisodeId(v)),
            Err(e) => Err(e),
        }
    }
}

impl From<u32> for EpisodeId {
    fn from(n: u32) -> (r: EpisodeId) {
        EpisodeId(n)
    }
}

impl vstd::std_specs::convert::FromSpecImpl<u32> for EpisodeId {
    open spec fn obeys_from_spec() -> bool {
        true
    }

    open spec fn from_spec(n: u32) -> EpisodeId {
        EpisodeId(n)
    }
}

impl From<EpisodeId> for u32 {
    fn from(n: EpisodeId) -> (r: u32) {
        n.0
    }
}

impl vstd::std_specs::convert::FromSpecImpl<EpisodeId> for u32 {
    open spec fn obeys_from_spec() -> bool {
        true
    }

    open spec fn from_spec(n: EpisodeId) -> u32 {
        n.0
    }
}

impl From<usize> for EpisodeId {
    fn from(n: usize) -> (r: EpisodeId) {
        EpisodeId(n as u32)
    }
}

impl vstd::std_specs::convert::FromSpecImpl<usize> for EpisodeId {
    open spec fn obeys_from_spec() -> bool {
        true
    }

    open spec fn from_spec(n: usize) -> EpisodeId {
        EpisodeId(n as u32)
    }
}

impl From<EpisodeId> for usize {
    fn from(n: EpisodeId) -> (r: usize) {
        n.0 as usize
    }
}

impl vstd::std_specs::convert::FromSpecImpl<EpisodeId> for usize {
    open spec fn obeys_from_spec() -> bool {
        true
    }

    open spec fn from_spec(n: EpisodeId) -> usize {
        n.0 as usize
    }
}

impl From<u8> for EpisodeId {
    fn from(n: u8) -> (r: EpisodeId) {
        EpisodeId(n as u32)
    }
}

impl vstd::std_specs::convert::FromSpecImpl<u8> for EpisodeId {
    open spec fn obeys_from_spec() -> bool {
        true
    }

    open spec fn from_spec(n: u8) -> EpisodeId {
        EpisodeId(n as u32)
    }
}

impl From<i64> for EpisodeId {
    fn from(n: i64) -> (r: EpisodeId) {
        EpisodeId(n as u32)
    }
}

impl vstd::std_specs::convert::FromSpecImpl<i64> for EpisodeId {
    open spec fn obeys_from_spec() -> bool {
        true
    }

    open spec fn from_spec(n: i64) -> EpisodeId {
        EpisodeId(n as u32)
    }
}

impl From<EpisodeId> for i64 {
    fn from(n: EpisodeId) -> (r: i64) {
        n.0 as i64
    }
}

impl vstd::std_specs::convert::FromSpecImpl<EpisodeId> for i64 {
    open spec fn obeys_from_spec() -> bool {
        true
    }

    open spec fn from_spec(n: EpisodeId) -> i64 {
        n.0 as i64
    }
}


/// What the window of three characters at `i` marks: `_dd` marks `i`, `dd_` marks `i + 1`,
/// where `d` is an ASCII digit.
pub open spec fn marker_at(s: Seq<char>, i: int) -> Option<int> {
    if s[i] == '_' && is_digit(s[i + 1]) && is_digit(s[i + 2]) {
        Some(i)
    } else if is_digit(s[i]) && is_digit(s[i + 1]) && s[i + 2] == '_' {
        Some(i + 1)
    } else {
        None
    }
}

/// The marks of the windows that start before `n`, in order.
pub open spec fn markers(s: Seq<char>, n: int) -> Seq<int>
    decreases n,
{
    if n <= 0 {
        Seq::<int>::empty()
    } else {
        let p = markers(s, n - 1);
        match marker_at(s, n - 1) {
            Some(m) => p.push(m),
            None => p,
        }
    }
}

/// The episode number in a URL and the number of its digits: the URL must hold exactly two
/// marks, and the text from just after the first mark up to the second must be a number.
pub open spec fn episode_number(s: Seq<char>) -> Option<(int, int)> {
    let m = markers(s, s.len() - 2);
    if m.len() != 2 {
        None
    } else {
        let v = s.subrange(m[0] + 1, m[1] + 1);
        match parse_unsigned(v, u32::MAX as int) {
            Some(x) => Some((x, v.len() as int)),
            None => None,
        }
    }
}

pub proof fn lemma_episode_number_bound(s: Seq<char>)
    ensures
        episode_number(s) matches Some((v, pad)) ==> 0 <= v <= u32::MAX && 0 <= pad <= s.len(),
{
    let n = s.len() - 2;
    lemma_markers_ordered(s, if n <= 0 { 0 } else { n });
    if n <= 0 {
        assert(markers(s, n) == markers(s, 0));
    }
    let m = markers(s, n);
    if m.len() == 2 {
        let v = s.subrange(m[0] + 1, m[1] + 1);
        crate::text::lemma_parse_unsigned_bound(v, u32::MAX as int);
    }
}

proof fn lemma_markers_ordered(s: Seq<char>, n: int)
    requires
        n <= 0 || n <= s.len() - 2,
    ensures
        forall|k: int| 0 <= k < markers(s, n).len() ==> 0 <= #[trigger] markers(s, n)[k] <= n,
        forall|j: int, k: int| 0 <= j <= k < markers(s, n).len() ==> markers(s, n)[j] <= markers(s, n)[k],
    decreases n,
{
    if n > 0 {
        lemma_markers_ordered(s, n - 1);
        let p = markers(s, n - 1);
        assert forall|k: int| 0 <= k < markers(s, n).len() implies 0 <= #[trigger] markers(s, n)[k] <= n by {
            if k < p.len() {
                assert(markers(s, n)[k] == p[k]);
            }
        }
        assert forall|j: int, k: int| 0 <= j <= k < markers(s, n).len() implies markers(s, n)[j] <= markers(s, n)[k] by {
            if k < p.len() {
                assert(markers(s, n)[j] == p[j]);
                assert(markers(s, n)[k] == p[k]);
            } else if j < p.len() {
                assert(markers(s, n)[j] == p[j]);
                assert(p[j] <= n - 1);
            }
        }
    }
}

/// The episode number in a URL, with the number of its digits.
pub fn episode_number_of(s: &[char]) -> (r: Option<(u32, usize)>)
    ensures
        match episode_number(s@) {
            Some((v, pad)) => r matches Some((x, p)) && x == v && p == pad,
            None => r is None,
        },
{
    let mut found: Vec<usize> = Vec::new();
    let n: usize = if s.len() >= 2 { s.len() - 2 } else { 0 };
    let mut i: usize = 0;
    while i < n
        invariant
            i <= n,
            n == if s.len() >= 2 { s.len() - 2 } else { 0 },
            found@.map_values(|x: usize| x as int) == markers(s@, i as int),
        decreases n - i,
    {
        let a = s[i];
        let b = s[i + 1];
        let c = s[i + 2];
        let ghost before = found@;
        if a == '_' && '0' <= b && b <= '9' && '0' <= c && c <= '9' {
            found.push(i);
        } else if '0' <= a && a <= '9' && '0' <= b && b <= '9' && c == '_' {
            found.push(i + 1);
        }
        i += 1;
        assert(found@.map_values(|x: usize| x as int) =~= markers(s@, i as int)) by {
            assert(before.map_values(|x: usize| x as int).len() == before.len());
        }
    }
    proof {
        if s.len() < 2 {
            assert(markers(s@, s@.len() - 2) == markers(s@, 0));
        }
        lemma_markers_ordered(s@, n as int);
    }
    assert(found@.map_values(|x: usize| x as int).len() == found@.len());
    if found.len() != 2 {
        return None;
    }
    let lo = found[0] + 1;
    let hi = found[1] + 1;
    assert(found@.map_values(|x: usize| x as int)[0] == found@[0] as int);
    assert(found@.map_values(|x: usize| x as int)[1] == found@[1] as int);
    let value = crate::text::slice_copy(s, lo, hi);
    proof {
        lemma_episode_number_bound(s@);
        crate::text::lemma_parse_unsigned_bound(value@, u32::MAX as int);
    }
    match parse_decimal(value.as_slice(), u32::MAX as u64) {
        Some(x) => Some((x as u32, value.len())),
        None => None,
    }
}

/// Extract the episode number and its zero-padding from a URL, if present.
pub fn get_episode_number(url: &str) -> (r: Option<(EpisodeId, usize)>)
    ensures
        match episode_number(url@) {
            Some((v, pad)) => r matches Some((x, p)) && x.0 == v && p == pad,
            None => r is None,
        },
{
    let cs = chars_of(url);
    match episode_number_of(cs.as_slice()) {
        Some((v, pad)) => Some((EpisodeId(v), pad)),
        None => None,
    }
}

/// The URL of episode `new` made from that of episode `old`.
pub open spec fn episode_url(url: Seq<char>, old: int, new: int, padding: int) -> Seq<char> {
    replace_all(
        url,
        seq!['_'] + zero_padded(old as nat, padding as nat),
        seq!['_'] + zero_padded(new as nat, padding as nat),
    )
}

/// The URL made for the episode that the URL already names is the URL itself.
pub proof fn law_same_episode_url(url: Seq<char>, n: int, padding: int)
    ensures
        episode_url(url, n, n, padding) == url,
{
    crate::text::lemma_replace_same(url, seq!['_'] + zero_padded(n as nat, padding as nat));
}

/// Every mark comes from a window that starts before `n`.
proof fn lemma_marker_from(s: Seq<char>, n: int, k: int) -> (i: int)
    requires
        0 <= k < markers(s, n).len(),
    ensures
        0 <= i < n,
        marker_at(s, i) == Some(markers(s, n)[k]),
    decreases n,
{
    let p = markers(s, n - 1);
    if k < p.len() {
        assert(markers(s, n)[k] == p[k]);
        lemma_marker_from(s, n - 1, k)
    } else {
        n - 1
    }
}

/// Every window that starts before `n` and marks something has its mark among the marks.
proof fn lemma_marker_in(s: Seq<char>, n: int, i: int)
    requires
        0 <= i < n,
        marker_at(s, i) is Some,
    ensures
        markers(s, n).contains(marker_at(s, i)->0),
    decreases n,
{
    let p = markers(s, n - 1);
    if i < n - 1 {
        lemma_marker_in(s, n - 1, i);
        let j = choose|j: int| 0 <= j < p.len() && p[j] == marker_at(s, i)->0;
        assert(markers(s, n)[j] == p[j]);
    } else {
        assert(markers(s, n).last() == marker_at(s, i)->0);
    }
}

/// Two texts of the same length, with underscores and digits at the same places.
pub open spec fn same_shape(s: Seq<char>, t: Seq<char>) -> bool {
    s.len() == t.len() && forall|i: int| 0 <= i < s.len() ==> (s[i] == '_' <==> t[i] == '_')
        && (is_digit(#[trigger] s[i]) <==> is_digit(t[i]))
}

/// Texts of the same shape have the same marks.
proof fn lemma_markers_same_shape(s: Seq<char>, t: Seq<char>, n: int)
    requires
        same_shape(s, t),
        n <= s.len() - 2,
    ensures
        markers(s, n) == markers(t, n),
    decreases n,
{
    if n > 0 {
        lemma_markers_same_shape(s, t, n - 1);
        let i = n - 1;
        assert(is_digit(s[i]) <==> is_digit(t[i]));
        assert(is_digit(s[i + 1]) <==> is_digit(t[i + 1]));
        assert(is_digit(s[i + 2]) <==> is_digit(t[i + 2]));
        assert(marker_at(s, i) == marker_at(t, i));
    }
}

/// The URL made for episode `n` names episode `n` again, with the same padding, where `n` fits
/// in the digits of the episode number that the URL holds.
#[verifier::spinoff_prover]
pub proof fn law_episode_url_read_back(url: Seq<char>, e: int, p: int, n: nat)
    requires
        episode_number(url) == Some((e, p)),
        n <= u32::MAX,
        decimal(n).len() <= p,
    ensures
        episode_number(episode_url(url, e, n as int, p)) == Some((n as int, p)),
{
    let big_n = url.len() - 2;
    let m = markers(url, big_n);
    let m0 = m[0];
    let m1 = m[1];
    lemma_markers_ordered(url, if big_n <= 0 { 0 } else { big_n });
    if big_n <= 0 {
        assert(markers(url, big_n) == markers(url, 0));
    }
    let v = url.subrange(m0 + 1, m1 + 1);
    let i0 = lemma_marker_from(url, big_n, 0);
    let i1 = lemma_marker_from(url, big_n, 1);
    assert(v.len() > 0);
    // the first mark is an underscore followed by digits, the second a digit before one
    if !(url[i0] == '_' && is_digit(url[i0 + 1]) && is_digit(url[i0 + 2])) {
        assert(v[0] == url[m0 + 1]);
        assert(v[0] == '_');
        assert(!crate::text::all_digits(v));
        assert(false);
    }
    assert(m0 == i0);
    assert(v[0] == url[m0 + 1]);
    assert(crate::text::all_digits(v));
    if url[i1] == '_' && is_digit(url[i1 + 1]) && is_digit(url[i1 + 2]) {
        assert(v[v.len() - 1] == url[m1]);
        assert(false);
    }
    assert(m1 == i1 + 1);
    assert(url[m1 + 1] == '_');
    if m1 == m0 + 1 {
        assert(false);
    }
    assert(p == m1 - m0);
    assert(p >= 2);
    crate::text::lemma_zero_padded_of_digits(v);
    assert(crate::text::digits_value(v) == e);
    let pat = seq!['_'] + zero_padded(e as nat, p as nat);
    let rep = seq!['_'] + zero_padded(n, p as nat);
    assert(pat =~= url.subrange(m0, m0 + p + 1));
    assert(crate::text::pattern_at(url, pat, m0));
    assert forall|j: int| j != m0 implies !#[trigger] crate::text::pattern_at(url, pat, j) by {
        if crate::text::pattern_at(url, pat, j) {
            assert(url[j] == pat[0]);
            assert(url[j + 1] == pat[1] && url[j + 2] == pat[2]);
            assert(pat[1] == v[0] && pat[2] == v[1]);
            assert(marker_at(url, j) == Some(j));
            lemma_marker_in(url, big_n, j);
            let k = choose|k: int| 0 <= k < m.len() && m[k] == j;
            assert(k == 0 || k == 1);
            assert(v[v.len() - 1] == url[m1]);
        }
    }
    crate::text::lemma_replace_once(url, pat, rep, m0);
    let t = url.take(m0) + rep + url.skip(m0 + p + 1);
    assert(episode_url(url, e, n as int, p) == t);
    crate::text::lemma_zero_padded(n, p as nat);
    let dn = zero_padded(n, p as nat);
    assert(dn.len() == p);
    assert(same_shape(url, t)) by {
        assert forall|i: int| 0 <= i < url.len() implies (url[i] == '_' <==> t[i] == '_')
            && (is_digit(#[trigger] url[i]) <==> is_digit(t[i])) by {
            if i < m0 {
                assert(t[i] == url[i]);
            } else if i == m0 {
                assert(t[i] == '_');
            } else if i <= m0 + p {
                assert(t[i] == dn[i - m0 - 1]);
                assert(url[i] == v[i - m0 - 1]);
            } else {
                assert(t[i] == url[i]);
            }
        }
    }
    lemma_markers_same_shape(url, t, big_n);
    assert(t.subrange(m0 + 1, m1 + 1) =~= dn);
}

/// Replace url episode number with zero-padded episode number.
pub fn gen_url(url: &str, old: EpisodeId, new: EpisodeId, padding: usize) -> (r: String)
    ensures
        r@ == episode_url(url@, old.0 as int, new.0 as int, padding as int),
{
    let cs = chars_of(url);
    let mut pat: Vec<char> = Vec::new();
    pat.push('_');
    let mut rep: Vec<char> = Vec::new();
    rep.push('_');
    let old_digits = zero_padded_chars(old.0 as u64, padding);
    let new_digits = zero_padded_chars(new.0 as u64, padding);
    let mut pat = concat(pat, &old_digits);
    let mut rep = concat(rep, &new_digits);
    assert(pat@ =~= seq!['_'] + zero_padded(old.0 as nat, padding as nat));
    assert(rep@ =~= seq!['_'] + zero_padded(new.0 as nat, padding as nat));
    let out = replace(cs.as_slice(), pat.as_slice(), rep.as_slice());
    string_of(out.as_slice())
}

/// `a` followed by the characters of `b`.
pub fn concat(a: Vec<char>, b: &Vec<char>) -> (r: Vec<char>)
    ensures
        r@ == a@ + b@,
{
    let mut r = a;
    let ghost start = r@;
    let mut i: usize = 0;
    while i < b.len()
        invariant
            i <= b.len(),
            r@ == start + b@.take(i as int),
        decreases b.len() - i,
    {
        r.push(b[i]);
        i += 1;
        assert(r@ =~= start + b@.take(i as int));
    }
    assert(b@.take(b.len() as int) == b@);
    r
}


/// The views of a vector of strings.
pub open spec fn strings(v: Seq<String>) -> Seq<Seq<char>> {
    v.map_values(|x: String| x@)
}

/// An anime: its name, the URL of one of its episodes, its AniList id, the range of its
/// episodes and the last episode watched.
#[derive(Clone, Default, Debug, PartialEq, Eq)]
pub struct Anime {
    id: Option<AnimeId>,
    last_watched: Option<EpisodeId>,
    name: String,
    url: String,
    range: Option<Range<EpisodeId>>,
}

/// What an `Anime` holds.
pub struct AnimeView {
    pub id: Option<AnimeId>,
    pub last_watched: Option<EpisodeId>,
    pub name: Seq<char>,
    pub url: Seq<char>,
    pub range: Option<(u32, u32)>,
}

impl View for Anime {
    type V = AnimeView;

    closed spec fn view(&self) -> AnimeView {
        AnimeView {
            id: self.id,
            last_watched: self.last_watched,
            name: self.name@,
            url: self.url@,
            range: match self.range {
                Some(r) => Some((r.start.0, r.end.0)),
                None => None,
            },
        }
    }
}

/// The URLs of the episodes `start..=end` of the anime whose URL is `url`: where the URL holds
/// an episode number, each episode number of the range, shifted so that `1` is the episode of
/// the URL, replaces it; else the URL alone.
pub open spec fn range_urls(url: Seq<char>, start: int, end: int) -> Seq<Seq<char>> {
    match episode_number(url) {
        Some((value, pad)) => {
            let num = if value >= 1 { value - 1 } else { value };
            span(start, end).map_values(|i: int| episode_url(url, value, i + num, pad))
        },
        None => seq![url],
    }
}

/// Whether the episode numbers of `range_urls` all fit in a `u32`.
pub open spec fn range_fits(url: Seq<char>, start: int, end: int) -> bool {
    episode_number(url) matches Some((value, _)) ==> (start > end || (end < u32::MAX
        && end + (if value >= 1 { value - 1 } else { value }) <= u32::MAX))
}

/// How far `range_urls` shifts the episode numbers of a range.
pub open spec fn episode_shift(url: Seq<char>) -> int {
    match episode_number(url) {
        Some((v, _)) => if v >= 1 { v - 1 } else { v },
        None => 0,
    }
}

/// The URLs of the given episodes of the anime whose URL is `url`.
pub open spec fn slice_urls(url: Seq<char>, episodes: Seq<EpisodeId>) -> Seq<Seq<char>> {
    match episode_number(url) {
        Some((value, pad)) => episodes.map_values(|e: EpisodeId| episode_url(url, value, e.0 as int, pad)),
        None => seq![url],
    }
}

/// Selecting a list of episodes and selecting a range agree: the URLs of the range `a..=b`
/// are those of its episodes shifted by `episode_shift`, so that where the URL names episode 1
/// the two name the same episodes.
pub proof fn law_slice_agrees_with_range(url: Seq<char>, ids: Seq<EpisodeId>, a: int, b: int)
    requires
        ids.len() == span(a, b).len(),
        forall|k: int| 0 <= k < ids.len() ==> #[trigger] ids[k].0 == span(a, b)[k] + episode_shift(url),
    ensures
        slice_urls(url, ids) == range_urls(url, a, b),
{
    if episode_number(url) is Some {
        assert(slice_urls(url, ids) =~= range_urls(url, a, b));
    }
}


impl Anime {
    pub fn new(name: &str, url: &str, id: Option<AnimeId>, range: Option<Range<EpisodeId>>) -> (r: Self)
        ensures
            r@.name == name@,
            r@.url == url@,
            r@.id == id,
            r@.range == match range { Some(x) => Some((x.start.0, x.end.0)), None => None },
            r@.last_watched is None,
    {
        Anime {
            id,
            range,
            name: string_of(chars_of(name).as_slice()),
            url: string_of(chars_of(url).as_slice()),
            last_watched: None,
        }
    }

    /// The same anime, with `last_watched` as the last episode watched.
    pub fn with_last_watched(self, last_watched: EpisodeId) -> (r: Self)
        ensures
            r@.last_watched == Some(last_watched),
            r@.id == self@.id,
            r@.name == self@.name,
            r@.url == self@.url,
            r@.range == self@.range,
    {
        let mut a = self;
        a.last_watched = Some(last_watched);
        a
    }

    /// A copy of the anime.
    pub fn duplicate(&self) -> (r: Self)
        ensures
            r@ == self@,
    {
        Anime {
            id: self.id,
            last_watched: self.last_watched,
            name: self.name.clone(),
            url: self.url.clone(),
            range: self.range,
        }
    }

    pub fn id(&self) -> (r: Option<AnimeId>)
        ensures
            r == self@.id,
    {
        self.id
    }

    /// The episode number in the URL, or `0` where it holds none.
    pub fn next_episode(&self) -> (r: EpisodeId)
        ensures
            r.0 == match episode_number(self@.url) {
                Some((v, _)) => v,
                None => 0,
            },
    {
        match get_episode_number(self.url.as_str()) {
            Some((value, _)) => value,
            None => EpisodeId(0),
        }
    }

    pub fn last_watched(&self) -> (r: Option<EpisodeId>)
        ensures
            r == self@.last_watched,
    {
        self.last_watched
    }

    /// The last episode of the range, or `0` where there is none.
    pub fn last_episode(&self) -> (r: EpisodeId)
        ensures
            r.0 == match self@.range {
                Some((_, e)) => e,
                None => 0,
            },
    {
        match self.range {
            Some(r) => r.end,
            None => EpisodeId(0),
        }
    }

    pub fn name(&self) -> (r: &str)
        ensures
            r@ == self@.name,
    {
        self.name.as_str()
    }

    pub fn range(&self) -> (r: Option<Range<EpisodeId>>)
        ensures
            match r {
                Some(x) => self@.range == Some((x.start.0, x.end.0)),
                None => self@.range is None,
            },
    {
        self.range
    }

    pub fn url(&self) -> (r: &str)
        ensures
            r@ == self@.url,
    {
        self.url.as_str()
    }

    /// The URLs of the episodes from `start` to the end of the range; the URL alone where the
    /// anime has no range.
    pub fn select_from_index(&self, start: EpisodeId) -> (r: Vec<String>)
        requires
            self@.range matches Some((_, e)) ==> range_fits(self@.url, start.0 as int, e as int),
        ensures
            strings(r@) == match self@.range {
                Some((_, e)) => range_urls(self@.url, start.0 as int, e as int),
                None => seq![self@.url],
            },
    {
        match self.range {
            Some(r) => self.select_from_range(Range::new(start, r.end)),
            None => {
                let mut v: Vec<String> = Vec::new();
                v.push(self.url.clone());
                assert(strings(v@) =~= seq![self@.url]);
                v
            },
        }
    }

    /// The URLs of the episodes of `range`.
    pub fn select_from_range(&self, range: Range<EpisodeId>) -> (r: Vec<String>)
        requires
            range_fits(self@.url, range.start.0 as int, range.end.0 as int),
        ensures
            strings(r@) == range_urls(self@.url, range.start.0 as int, range.end.0 as int),
    {
        let mut out: Vec<String> = Vec::new();
        match get_episode_number(self.url.as_str()) {
            Some((value, padding)) => {
                let num = value.checked_sub(1);
                let episodes = range.expand();
                let ghost target = range_urls(self@.url, range.start.0 as int, range.end.0 as int);
                let mut i: usize = 0;
                assert(episodes@.map_values(|x: EpisodeId| x.0 as int).len() == episodes@.len());
                while i < episodes.len()
                    invariant
                        i <= episodes.len(),
                        episodes@.map_values(|x: EpisodeId| x.0 as int) == span(range.start.0 as int, range.end.0 as int),
                        episodes@.len() == target.len(),
                        episode_number(self@.url) == Some((value.0 as int, padding as int)),
                        target == span(range.start.0 as int, range.end.0 as int).map_values(
                            |k: int| episode_url(self@.url, value.0 as int, k + num.0, padding as int)),
                        range.start.0 > range.end.0 || range.end.0 + num.0 <= u32::MAX,
                        strings(out@) == target.take(i as int),
                    decreases episodes.len() - i,
                {
                    let e = episodes[i];
                    assert(episodes@.map_values(|x: EpisodeId| x.0 as int)[i as int] == e.0 as int);
                    let ep = EpisodeId(e.0 + num.0);
                    let u = gen_url(self.url.as_str(), value, ep, padding);
                    let ghost before = out@;
                    out.push(u);
                    i += 1;
                    assert(strings(out@) =~= target.take(i as int)) by {
                        assert(strings(before).len() == before.len());
                    }
                }
                assert(target.take(i as int) =~= target);
            },
            None => {
                out.push(self.url.clone());
                assert(strings(out@) =~= seq![self@.url]);
            },
        }
        out
    }

    /// Whether the episodes of `range` can be counted through without overflow: what
    /// `select_from_range` asks of its input.
    pub fn fits_range(&self, range: Range<EpisodeId>) -> (r: bool)
        ensures
            r == range_fits(self@.url, range.start.0 as int, range.end.0 as int),
    {
        match get_episode_number(self.url.as_str()) {
            None => true,
            Some((value, _)) => {
                let num: u64 = if value.0 >= 1 { value.0 as u64 - 1 } else { value.0 as u64 };
                range.start.0 > range.end.0 || (range.end.0 < u32::MAX && range.end.0 as u64 + num <= u32::MAX as u64)
            },
        }
    }

    /// The URLs of the given episodes.
    pub fn select_from_slice(&self, slice: &[EpisodeId]) -> (r: Vec<String>)
        ensures
            strings(r@) == slice_urls(self@.url, slice@),
    {
        let mut out: Vec<String> = Vec::new();
        match get_episode_number(self.url.as_str()) {
            Some((value, padding)) => {
                let ghost target = slice_urls(self@.url, slice@);
                let mut i: usize = 0;
                while i < slice.len()
                    invariant
                        i <= slice.len(),
                        target == slice@.map_values(|e: EpisodeId| episode_url(self@.url, value.0 as int, e.0 as int, padding as int)),
                        strings(out@) == target.take(i as int),
                    decreases slice.len() - i,
                {
                    let u = gen_url(self.url.as_str(), value, slice[i], padding);
                    let ghost before = out@;
                    out.push(u);
                    i += 1;
                    assert(strings(out@) =~= target.take(i as int)) by {
                        assert(strings(before).len() == before.len());
                    }
                }
                assert(target.take(i as int) =~= target);
            },
            None => {
                out.push(self.url.clone());
                assert(strings(out@) =~= seq![self@.url]);
            },
        }
        out
    }
}

} // verus!
