use vstd::prelude::*;

use crate::cli::download::{find_first, first_index_of, lemma_first_index, lemma_no_index};
use crate::error::UrlError;
use crate::text::{
    boundary_from, byte_len, char_at_byte, char_index_of_byte, char_utf8_len, chars_of, decimal,
    digits_of, digits_in, is_digit, lemma_parse_unsigned_bound, parse_decimal, parse_unsigned,
    replace, replace_all, slice_copy, string_of, utf8_len, zero_padded, zero_padded_chars,
};
use crate::url::{last_path_segment, url_last_segment};

verus! {

/// An episode number read from a URL, with the number of digits it was written with.
#[derive(Clone, Copy, Default, Debug, PartialEq, Eq)]
pub struct InfoNum {
    pub value: u32,
    pub alignment: usize,
}

/// What comes before the first `_` of `s`, or all of `s`, as `split('_').next()` gives it.
pub open spec fn first_piece(s: Seq<char>) -> Seq<char> {
    match first_index_of(s, '_') {
        Some(i) => s.take(i),
        None => s,
    }
}

/// The last path segment of a URL, or why there is none.
pub open spec fn last_segment(url: Seq<char>) -> Result<Seq<char>, UrlError> {
    match url_last_segment(url) {
        None => Err(UrlError::Unparsable),
        Some(None) => Err(UrlError::NoSegment),
        Some(Some(seg)) => Ok(seg),
    }
}

/// The view of a result that holds a string.
pub open spec fn result_view(r: Result<String, UrlError>) -> Result<Seq<char>, UrlError> {
    match r {
        Ok(s) => Ok(s@),
        Err(e) => Err(e),
    }
}

/// The text before the first `_` of `s`.
pub fn first_piece_of(s: &str) -> (r: String)
    ensures
        r@ == first_piece(s@),
{
    let cs = chars_of(s);
    match find_first(cs.as_slice(), '_') {
        Some(i) => {
            proof {
                lemma_first_index(cs@, '_', i as int);
            }
            string_of(slice_copy(cs.as_slice(), 0, i).as_slice())
        },
        None => {
            proof {
                lemma_no_index(cs@, '_');
            }
            string_of(cs.as_slice())
        },
    }
}

/// The anime name of an episode URL: its last path segment up to the first `_`.
pub fn parse_name(input: &str) -> (r: Result<String, UrlError>)
    ensures
        result_view(r) == match last_segment(input@) {
            Ok(seg) => Ok(first_piece(seg)),
            Err(e) => Err(e),
        },
{
    match last_path_segment(input) {
        None => Err(UrlError::Unparsable),
        Some(None) => Err(UrlError::NoSegment),
        Some(Some(seg)) => Ok(first_piece_of(seg.as_str())),
    }
}

/// The file name of an episode URL: its last path segment.
pub fn parse_filename(input: &str) -> (r: Result<String, UrlError>)
    ensures
        result_view(r) == last_segment(input@),
{
    match last_path_segment(input) {
        None => Err(UrlError::Unparsable),
        Some(None) => Err(UrlError::NoSegment),
        Some(Some(seg)) => Ok(seg),
    }
}

/// Where the window of `n` bytes that ends just before character `k` starts, as a character
/// index; `None` where it would start before the text or inside a character.
pub open spec fn window_start(s: Seq<char>, k: int, n: int) -> Option<int>
    decreases k,
{
    if n == 0 {
        Some(k)
    } else if n < 0 || k <= 0 || k > s.len() {
        None
    } else if utf8_len(s[k - 1]) > n {
        None
    } else {
        window_start(s, k - 1, n - utf8_len(s[k - 1]))
    }
}

/// Whether the three bytes before the first `%` can be cut out of the text: reading them
/// would otherwise panic.
pub open spec fn percentage_readable(s: Seq<char>) -> bool {
    match first_index_of(s, '%') {
        None => true,
        Some(k) => window_start(s, k, 3) is Some,
    }
}

/// The percentage in a line: the digits among the three bytes before its first `%`.
pub open spec fn three_byte_percentage(s: Seq<char>) -> Option<int> {
    match first_index_of(s, '%') {
        None => None,
        Some(k) => match window_start(s, k, 3) {
            None => None,
            Some(j) => parse_unsigned(digits_of(s.subrange(j, k)), u32::MAX as int),
        },
    }
}

/// Reads the percentage written in the three bytes before the first `%`.
pub fn parse_percentage(input: &str) -> (r: Option<u32>)
    requires
        percentage_readable(input@),
    ensures
        match three_byte_percentage(input@) {
            Some(v) => r == Some(v as u32),
            None => r is None,
        },
{
    let cs = chars_of(input);
    let sym = match find_first(cs.as_slice(), '%') {
        Some(k) => k,
        None => {
            proof {
                lemma_no_index(cs@, '%');
            }
            return None;
        },
    };
    proof {
        lemma_first_index(cs@, '%', sym as int);
    }
    let mut j = sym;
    let mut n: usize = 3;
    while n > 0
        invariant
            j <= sym < cs.len(),
            n <= 3,
            window_start(cs@, sym as int, 3) == window_start(cs@, j as int, n as int),
            window_start(cs@, j as int, n as int) is Some,
        decreases j,
    {
        let l = char_utf8_len(cs[j - 1]);
        n = n - l;
        j = j - 1;
    }
    let digits = digits_in(cs.as_slice(), j, sym);
    proof {
        lemma_parse_unsigned_bound(digits@, u32::MAX as int);
    }
    match parse_decimal(digits.as_slice(), 0xffff_ffffu64) {
        Some(v) => Some(v as u32),
        None => None,
    }
}

/// Whether the two characters at `i` mark where an episode number begins or ends: `_` then a
/// digit, or a digit then `_`.
pub open spec fn pair_mark(s: Seq<char>, i: int) -> bool {
    (s[i] == '_' && is_digit(s[i + 1])) || (is_digit(s[i]) && s[i + 1] == '_')
}

/// The positions below `n` of the pairs that mark, in order.
pub open spec fn pair_marks(s: Seq<char>, n: int) -> Seq<int>
    decreases n,
{
    if n <= 0 {
        Seq::<int>::empty()
    } else if pair_mark(s, n - 1) {
        pair_marks(s, n - 1).push(n - 1)
    } else {
        pair_marks(s, n - 1)
    }
}

/// The marks of a whole text: one per window of two characters.
pub open spec fn marks_of(s: Seq<char>) -> Seq<int> {
    pair_marks(s, s.len() - 1)
}

/// Whether the text between the two marks can be cut out: the marks are character positions,
/// but the text is cut at those byte offsets, which must be character boundaries.
pub open spec fn number_readable(s: Seq<char>) -> bool {
    let m = marks_of(s);
    m.len() == 2 ==> char_at_byte(s, m[0]) is Some && char_at_byte(s, m[1] + 1) is Some
}

/// The episode number of a URL with exactly two marks: the digits of the text cut between
/// them, and how many there are.
pub open spec fn number_info(s: Seq<char>) -> Option<(int, int)> {
    let m = marks_of(s);
    if m.len() != 2 {
        None
    } else {
        match (char_at_byte(s, m[0]), char_at_byte(s, m[1] + 1)) {
            (Some(a), Some(b)) => {
                let d = digits_of(s.subrange(a, b));
                match parse_unsigned(d, u32::MAX as int) {
                    Some(v) => Some((v, d.len() as int)),
                    None => None,
                }
            },
            _ => None,
        }
    }
}

proof fn lemma_boundary_from_after(s: Seq<char>, k: int, b: int)
    ensures
        boundary_from(s, k, b) matches Some(a) ==> a >= k,
    decreases s.len() - k,
{
    if b != 0 && !(b < 0 || k < 0 || k >= s.len()) && utf8_len(s[k]) <= b {
        lemma_boundary_from_after(s, k + 1, b - utf8_len(s[k]));
    }
}

proof fn lemma_boundary_from_monotone(s: Seq<char>, k: int, x: int, y: int)
    requires
        x <= y,
    ensures
        boundary_from(s, k, x) matches Some(a) ==> (boundary_from(s, k, y) matches Some(b) ==> a <= b),
    decreases s.len() - k,
{
    if x == 0 {
        lemma_boundary_from_after(s, k, y);
    } else if !(x < 0 || k < 0 || k >= s.len()) && utf8_len(s[k]) <= x {
        lemma_boundary_from_monotone(s, k + 1, x - utf8_len(s[k]), y - utf8_len(s[k]));
    }
}

proof fn lemma_marks_bound(s: Seq<char>, n: int)
    ensures
        forall|i: int| 0 <= i < pair_marks(s, n).len() ==> 0 <= #[trigger] pair_marks(s, n)[i] < n,
        forall|i: int, j: int| 0 <= i < j < pair_marks(s, n).len() ==> pair_marks(s, n)[i] < pair_marks(s, n)[j],
    decreases n,
{
    if n > 0 {
        lemma_marks_bound(s, n - 1);
        let p = pair_marks(s, n - 1);
        if pair_mark(s, n - 1) {
            let q = p.push(n - 1);
            assert(pair_marks(s, n) == q);
            assert forall|i: int| 0 <= i < q.len() implies 0 <= #[trigger] q[i] < n by {
                if i < p.len() {
                    assert(q[i] == p[i]);
                }
            }
            assert forall|i: int, j: int| 0 <= i < j < q.len() implies q[i] < q[j] by {
                assert(q[i] == p[i]);
                if j < p.len() {
                    assert(q[j] == p[j]);
                } else {
                    assert(0 <= p[i] < n - 1);
                }
            }
        }
    }
}

/// Reads the episode number of a URL and the number of digits it is written with.
pub fn parse_number(input: &str) -> (r: Option<InfoNum>)
    requires
        number_readable(input@),
    ensures
        match number_info(input@) {
            Some((v, d)) => r == Some(InfoNum { value: v as u32, alignment: d as usize }),
            None => r is None,
        },
{
    let cs = chars_of(input);
    let mut marks: Vec<usize> = Vec::new();
    let mut i: usize = 0;
    let n: usize = if cs.len() > 0 { cs.len() - 1 } else { 0 };
    proof {
        lemma_marks_bound(cs@, n as int);
    }
    while i < n
        invariant
            i <= n,
            n == if cs@.len() > 0 { cs@.len() - 1 } else { 0 },
            marks@.map_values(|x: usize| x as int) == pair_marks(cs@, i as int),
        decreases n - i,
    {
        let ghost before = marks@;
        if (cs[i] == '_' && '0' <= cs[i + 1] && cs[i + 1] <= '9') || ('0' <= cs[i] && cs[i] <= '9' && cs[i + 1] == '_') {
            marks.push(i);
            assert(marks@.map_values(|x: usize| x as int) =~= before.map_values(|x: usize| x as int).push(i as int));
        }
        i += 1;
    }
    assert(marks@.map_values(|x: usize| x as int).len() == marks@.len());
    if marks.len() != 2 {
        return None;
    }
    let ghost m = marks_of(cs@);
    assert(m =~= marks@.map_values(|x: usize| x as int));
    assert(m[0] == marks@[0] && m[1] == marks@[1]);
    proof {
        lemma_marks_bound(cs@, n as int);
    }
    let a = match char_index_of_byte(cs.as_slice(), marks[0]) {
        Some(a) => a,
        None => return None,
    };
    let b = match char_index_of_byte(cs.as_slice(), marks[1] + 1) {
        Some(b) => b,
        None => return None,
    };
    proof {
        lemma_boundary_from_monotone(cs@, 0, m[0], m[1] + 1);
    }
    let digits = digits_in(cs.as_slice(), a, b);
    proof {
        lemma_parse_unsigned_bound(digits@, u32::MAX as int);
    }
    match parse_decimal(digits.as_slice(), 0xffff_ffffu64) {
        Some(v) => Some(InfoNum { value: v as u32, alignment: digits.len() }),
        None => None,
    }
}

/// The URL with the episode number written as `info` turned into the `{}` placeholder.
pub open spec fn placeholder_url(url: Seq<char>, num: Option<InfoNum>) -> Seq<char> {
    match num {
        Some(info) => replace_all(url, zero_padded(info.value as nat, info.alignment as nat), "{}"@),
        None => url,
    }
}

/// Puts the `{}` placeholder where the episode number stands in the URL.
pub fn parse_url(input: &str, num: Option<InfoNum>) -> (r: String)
    ensures
        r@ == placeholder_url(input@, num),
{
    match num {
        Some(info) => {
            let cs = chars_of(input);
            let pat = zero_padded_chars(info.value as u64, info.alignment);
            let rep = chars_of("{}");
            assert(decimal(info.value as nat).len() > 0);
            let out = replace(cs.as_slice(), pat.as_slice(), rep.as_slice());
            string_of(out.as_slice())
        },
        None => string_of(chars_of(input).as_slice()),
    }
}

/// Whether `c` has the Unicode `Uppercase` property, as `char::is_uppercase` tells.
pub uninterp spec fn char_is_uppercase(c: char) -> bool;

/// `char::is_uppercase`. The contract names the result; the Unicode tables behind it are not
/// restated.
#[verifier::external_body]
fn std_is_uppercase(c: char) -> (r: bool)
    ensures
        r == char_is_uppercase(c),
{
    c.is_uppercase()
}

/// The lowercase mapping of a text, as `str::to_lowercase` gives it.
pub uninterp spec fn lowercase_of(s: Seq<char>) -> Seq<char>;

/// `str::to_lowercase`. The contract names the result; the Unicode case mapping behind it is
/// not restated.
#[verifier::external_body]
fn std_to_lowercase(s: &str) -> (r: String)
    ensures
        r@ == lowercase_of(s@),
{
    s.to_lowercase()
}

/// Whether a separator goes before character `k`: it is an uppercase letter that does not
/// start the text, and the character that follows it is neither uppercase nor a digit. The
/// following character is looked up by the byte offset of `k` taken as a character index.
pub open spec fn splits_before(s: Seq<char>, k: int) -> bool {
    let i = byte_len(s.take(k)) as int;
    &&& i != 0
    &&& char_is_uppercase(s[k])
    &&& i + 1 < s.len()
    &&& !char_is_uppercase(s[i + 1])
    &&& !is_digit(s[i + 1])
}

/// The first `n` characters of `s`, each preceded by a separator where one goes before it.
pub open spec fn recased_prefix(s: Seq<char>, n: int, sep: char) -> Seq<char>
    decreases n,
{
    if n <= 0 {
        Seq::<char>::empty()
    } else if splits_before(s, n - 1) {
        recased_prefix(s, n - 1, sep).push(sep).push(s[n - 1])
    } else {
        recased_prefix(s, n - 1, sep).push(s[n - 1])
    }
}

/// The index of the first ASCII digit of `s`.
pub open spec fn first_digit(s: Seq<char>) -> Option<int> {
    if exists|i: int| 0 <= i < s.len() && is_digit(s[i]) {
        Some(choose|i: int| 0 <= i < s.len() && is_digit(s[i]) && forall|j: int| 0 <= j < i ==> !is_digit(s[j]))
    } else {
        None
    }
}

/// `s` recased with `sep`: a separator before each uppercase letter that starts a word, and
/// one more just before the first digit.
pub open spec fn recased(s: Seq<char>, sep: char) -> Seq<char> {
    let v = recased_prefix(s, s.len() as int, sep);
    match first_digit(s) {
        None => v,
        Some(k) => v.insert(recased_prefix(s, k, sep).len() + (if splits_before(s, k) { 1int } else { 0 }), sep),
    }
}

proof fn lemma_byte_len_bound(s: Seq<char>)
    ensures
        s.len() <= byte_len(s) <= 4 * s.len(),
    decreases s.len(),
{
    if s.len() > 0 {
        lemma_byte_len_bound(s.drop_last());
    }
}

proof fn lemma_recased_prefix_len(s: Seq<char>, k: int, n: int, sep: char)
    requires
        0 <= k <= n,
    ensures
        recased_prefix(s, k, sep).len() <= recased_prefix(s, n, sep).len(),
        recased_prefix(s, n, sep).take(recased_prefix(s, k, sep).len() as int) == recased_prefix(s, k, sep),
    decreases n - k,
{
    if k < n {
        lemma_recased_prefix_len(s, k, n - 1, sep);
        let p = recased_prefix(s, n - 1, sep);
        let q = recased_prefix(s, k, sep);
        if splits_before(s, n - 1) {
            assert(p.push(sep).push(s[n - 1]).take(q.len() as int) == p.take(q.len() as int));
        } else {
            assert(p.push(s[n - 1]).take(q.len() as int) == p.take(q.len() as int));
        }
    }
}

/// Splits a CamelCase text into words joined by `separator`, with the first number set apart
/// too, and lowercases the whole where asked.
pub fn recase_string(s: &str, separator: char, all_lowercase: bool) -> (r: String)
    ensures
        r@ == if all_lowercase { lowercase_of(recased(s@, separator)) } else { recased(s@, separator) },
{
    let cs = chars_of(s);
    let mut v: Vec<char> = Vec::new();
    let mut pos: Option<usize> = None;
    let mut bi: u128 = 0;
    let mut k: usize = 0;
    while k < cs.len()
        invariant
            k <= cs.len(),
            v@ == recased_prefix(cs@, k as int, separator),
            bi == byte_len(cs@.take(k as int)),
            match pos {
                None => forall|j: int| 0 <= j < k ==> !is_digit(cs@[j]),
                Some(p) => exists|kd: int| 0 <= kd < k && is_digit(cs@[kd])
                    && (forall|j: int| 0 <= j < kd ==> !is_digit(cs@[j]))
                    && p == recased_prefix(cs@, kd, separator).len() + (if splits_before(cs@, kd) { 1int } else { 0 }),
            },
        decreases cs.len() - k,
    {
        proof {
            lemma_byte_len_bound(cs@.take(k as int));
        }
        let c = cs[k];
        let mut split = false;
        if bi != 0 && std_is_uppercase(c) && bi + 1 < cs.len() as u128 {
            let next = cs[(bi + 1) as usize];
            if !std_is_uppercase(next) && !('0' <= next && next <= '9') {
                split = true;
            }
        }
        assert(split == splits_before(cs@, k as int));
        if split {
            v.push(separator);
        }
        if '0' <= c && c <= '9' && pos.is_none() {
            pos = Some(v.len());
        }
        v.push(c);
        assert(cs@.take(k + 1).drop_last() == cs@.take(k as int));
        let l = char_utf8_len(c);
        bi = bi + l as u128;
        k += 1;
    }
    assert(cs@.take(cs.len() as int) == cs@);
    match pos {
        Some(p) => {
            let ghost kd = choose|kd: int| 0 <= kd < cs@.len() && is_digit(cs@[kd])
                && (forall|j: int| 0 <= j < kd ==> !is_digit(cs@[j]))
                && p == recased_prefix(cs@, kd, separator).len() + (if splits_before(cs@, kd) { 1int } else { 0 });
            proof {
                assert(first_digit(cs@) == Some(kd)) by {
                    let w = choose|i: int| 0 <= i < cs@.len() && is_digit(cs@[i]) && forall|j: int| 0 <= j < i ==> !is_digit(cs@[j]);
                    assert(0 <= w < cs@.len() && is_digit(cs@[w]) && forall|j: int| 0 <= j < w ==> !is_digit(cs@[j]));
                    if w < kd {
                        assert(!is_digit(cs@[w]));
                    }
                    if kd < w {
                        assert(!is_digit(cs@[kd]));
                    }
                }
                lemma_recased_prefix_len(cs@, kd + 1, cs@.len() as int, separator);
            }
            v.insert(p, separator);
        },
        None => {
            assert(first_digit(cs@) is None);
        },
    }
    let out = string_of(v.as_slice());
    if all_lowercase {
        std_to_lowercase(out.as_str())
    } else {
        out
    }
}

} // verus!
