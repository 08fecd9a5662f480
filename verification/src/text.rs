use vstd::prelude::*;

verus! {

/// `String::push` appends one character at the end.
pub assume_specification[ String::push ](s: &mut String, ch: char)
    ensures
        final(s)@ == old(s)@.push(ch),
;

/// The characters of a string slice, in order.
pub fn chars_of(s: &str) -> (v: Vec<char>)
    ensures
        v@ == s@,
{
    let mut v: Vec<char> = Vec::new();
    for c in it: s.chars()
        invariant
            v@ == it.seq().take(it.index() as int),
    {
        v.push(c);
    }
    v
}

/// A string made of the given characters.
pub fn string_of(v: &[char]) -> (s: String)
    ensures
        s@ == v@,
{
    let mut s = String::new();
    let mut i: usize = 0;
    while i < v.len()
        invariant
            i <= v.len(),
            s@ == v@.take(i as int),
        decreases v.len() - i,
    {
        s.push(v[i]);
        i += 1;
        assert(v@.take(i as int) == v@.take(i - 1).push(v@[i - 1]));
    }
    assert(v@.take(v.len() as int) == v@);
    s
}


/// An ASCII decimal digit.
pub open spec fn is_digit(c: char) -> bool {
    '0' <= c && c <= '9'
}

/// The numeric value of an ASCII decimal digit.
pub open spec fn digit_value(c: char) -> int {
    (c as int) - ('0' as int)
}

/// Every character is an ASCII decimal digit.
pub open spec fn all_digits(s: Seq<char>) -> bool {
    forall|i: int| 0 <= i < s.len() ==> is_digit(#[trigger] s[i])
}

/// The value of a string of decimal digits, most significant first.
pub open spec fn digits_value(s: Seq<char>) -> int
    decreases s.len(),
{
    if s.len() == 0 {
        0
    } else {
        10 * digits_value(s.drop_last()) + digit_value(s.last())
    }
}

/// What `str::parse` gives for an unsigned integer type whose largest value is `max`:
/// an optional leading `+`, then at least one ASCII digit, with a value that fits.
pub open spec fn parse_unsigned(s: Seq<char>, max: int) -> Option<int> {
    let body = if s.len() > 0 && s[0] == '+' { s.skip(1) } else { s };
    if body.len() > 0 && all_digits(body) && digits_value(body) <= max {
        Some(digits_value(body))
    } else {
        None
    }
}

pub proof fn lemma_digits_value_nonneg(s: Seq<char>)
    requires
        all_digits(s),
    ensures
        digits_value(s) >= 0,
    decreases s.len(),
{
    if s.len() > 0 {
        lemma_digits_value_nonneg(s.drop_last());
    }
}

pub proof fn lemma_parse_unsigned_bound(s: Seq<char>, max: int)
    ensures
        parse_unsigned(s, max) matches Some(v) ==> 0 <= v <= max,
{
    let body = if s.len() > 0 && s[0] == '+' { s.skip(1) } else { s };
    if all_digits(body) {
        lemma_digits_value_nonneg(body);
    }
}

/// Adding digits never makes the value smaller.
pub proof fn lemma_digits_value_prefix(s: Seq<char>, i: int)
    requires
        all_digits(s),
        0 <= i <= s.len(),
    ensures
        digits_value(s.take(i)) <= digits_value(s),
    decreases s.len() - i,
{
    if i < s.len() {
        lemma_digits_value_prefix(s, i + 1);
        assert(s.take(i + 1).drop_last() == s.take(i));
        lemma_digits_value_nonneg(s.take(i));
    } else {
        assert(s.take(i) == s);
    }
}

/// Parses a decimal unsigned integer no larger than `max`, as `str::parse` does.
pub fn parse_decimal(s: &[char], max: u64) -> (r: Option<u64>)
    ensures
        match parse_unsigned(s@, max as int) {
            Some(v) => r == Some(v as u64),
            None => r is None,
        },
{
    let start: usize = if s.len() > 0 && s[0] == '+' { 1 } else { 0 };
    let ghost body = if s@.len() > 0 && s@[0] == '+' { s@.skip(1) } else { s@ };
    assert(body == s@.skip(start as int));
    if start >= s.len() {
        return None;
    }
    let mut value: u64 = 0;
    let mut i: usize = start;
    while i < s.len()
        invariant
            start <= i <= s.len(),
            body == s@.skip(start as int),
            body == (if s@.len() > 0 && s@[0] == '+' { s@.skip(1) } else { s@ }),
            all_digits(body.take(i - start)),
            value as int == digits_value(body.take(i - start)),
            value <= max,
        decreases s.len() - i,
    {
        let c = s[i];
        if !('0' <= c && c <= '9') {
            assert(body[i - start] == c);
            assert(!is_digit(body[i - start]));
            assert(!all_digits(body));
            return None;
        }
        let d = (c as u64) - ('0' as u64);
        assert(body.take(i + 1 - start).drop_last() == body.take(i - start));
        let next: u128 = (value as u128) * 10 + (d as u128);
        if next > max as u128 {
            proof {
                assert(all_digits(body.take(i + 1 - start)));
                if all_digits(body) {
                    lemma_digits_value_prefix(body, i + 1 - start);
                    assert(body.take(i + 1 - start).take(i + 1 - start) == body.take(i + 1 - start));
                }
            }
            return None;
        }
        value = next as u64;
        i += 1;
    }
    assert(body.take(s.len() - start) == body);
    Some(value)
}


/// The number of bytes that `c` takes in UTF-8.
pub open spec fn utf8_len(c: char) -> nat {
    if (c as u32) < 0x80 {
        1
    } else if (c as u32) < 0x800 {
        2
    } else if (c as u32) < 0x10000 {
        3
    } else {
        4
    }
}

/// The number of bytes that `c` takes in UTF-8, as `char::len_utf8` gives it.
pub fn char_utf8_len(c: char) -> (r: usize)
    ensures
        r == utf8_len(c),
{
    let u = c as u32;
    if u < 0x80 {
        1
    } else if u < 0x800 {
        2
    } else if u < 0x10000 {
        3
    } else {
        4
    }
}

/// The number of bytes that `s` takes in UTF-8.
pub open spec fn byte_len(s: Seq<char>) -> nat
    decreases s.len(),
{
    if s.len() == 0 {
        0
    } else {
        byte_len(s.drop_last()) + utf8_len(s.last())
    }
}

/// The character index at which the byte offset `b` falls, counting from character `k` on,
/// where `b` is a character boundary of `s`.
pub open spec fn boundary_from(s: Seq<char>, k: int, b: int) -> Option<int>
    decreases s.len() - k,
{
    if b == 0 {
        Some(k)
    } else if b < 0 || k < 0 || k >= s.len() {
        None
    } else if utf8_len(s[k]) > b {
        None
    } else {
        boundary_from(s, k + 1, b - utf8_len(s[k]))
    }
}

/// The character index that starts at byte offset `b` of `s`; `None` where `b` is not a
/// character boundary or lies past the end.
pub open spec fn char_at_byte(s: Seq<char>, b: int) -> Option<int> {
    boundary_from(s, 0, b)
}

/// The character index of byte offset `b` of `s`, where it is a boundary.
pub fn char_index_of_byte(s: &[char], b: usize) -> (r: Option<usize>)
    ensures
        match char_at_byte(s@, b as int) {
            Some(k) => r == Some(k as usize) && 0 <= k <= s.len(),
            None => r is None,
        },
{
    let mut k: usize = 0;
    let mut rest: usize = b;
    while rest > 0
        invariant
            k <= s.len(),
            rest <= b,
            char_at_byte(s@, b as int) == boundary_from(s@, k as int, rest as int),
        decreases s.len() - k,
    {
        if k >= s.len() {
            return None;
        }
        let l = char_utf8_len(s[k]);
        if l > rest {
            return None;
        }
        rest = rest - l;
        k += 1;
    }
    Some(k)
}

/// The ASCII digits of `s`, in order.
pub open spec fn digits_of(s: Seq<char>) -> Seq<char>
    decreases s.len(),
{
    if s.len() == 0 {
        s
    } else if is_digit(s.last()) {
        digits_of(s.drop_last()).push(s.last())
    } else {
        digits_of(s.drop_last())
    }
}

/// The ASCII digits of `s[lo..hi]`.
pub fn digits_in(s: &[char], lo: usize, hi: usize) -> (r: Vec<char>)
    requires
        lo <= hi <= s.len(),
    ensures
        r@ == digits_of(s@.subrange(lo as int, hi as int)),
        all_digits(r@),
{
    let mut r: Vec<char> = Vec::new();
    let mut i = lo;
    while i < hi
        invariant
            lo <= i <= hi <= s.len(),
            r@ == digits_of(s@.subrange(lo as int, i as int)),
            all_digits(r@),
        decreases hi - i,
    {
        assert(s@.subrange(lo as int, i + 1).drop_last() == s@.subrange(lo as int, i as int));
        if '0' <= s[i] && s[i] <= '9' {
            r.push(s[i]);
        }
        i += 1;
    }
    r
}

/// Unicode `White_Space`, the set that `char::is_whitespace` and `str::trim` use.
pub open spec fn is_unicode_whitespace(c: char) -> bool {
    ||| ('\t' <= c && c <= '\r')
    ||| c == ' '
    ||| c == '\u{85}'
    ||| c == '\u{a0}'
    ||| c == '\u{1680}'
    ||| ('\u{2000}' <= c && c <= '\u{200a}')
    ||| c == '\u{2028}'
    ||| c == '\u{2029}'
    ||| c == '\u{202f}'
    ||| c == '\u{205f}'
    ||| c == '\u{3000}'
}

/// The set that `u8::is_ascii_whitespace` and `str::split_ascii_whitespace` use.
pub open spec fn is_ascii_whitespace(c: char) -> bool {
    c == ' ' || c == '\t' || c == '\n' || c == '\u{c}' || c == '\r'
}

/// The character sets by which this library splits and trims text.
#[derive(Clone, Copy, PartialEq, Eq, Debug)]
pub enum CharClass {
    /// Unicode white space.
    Whitespace,
    /// ASCII white space.
    AsciiWhitespace,
    /// `(` and `)`.
    Parens,
    /// `,`, `-` and `.`, which separate the bounds of a range.
    RangeSeparators,
    /// ` ` and `,`, which separate the items of a selection.
    SpaceOrComma,
    /// `,` alone.
    Comma,
    /// `_` alone.
    Underscore,
    /// The line feed.
    Newline,
}

impl CharClass {
    pub open spec fn has(self, c: char) -> bool {
        match self {
            CharClass::Whitespace => is_unicode_whitespace(c),
            CharClass::AsciiWhitespace => is_ascii_whitespace(c),
            CharClass::Parens => c == '(' || c == ')',
            CharClass::RangeSeparators => c == ',' || c == '-' || c == '.',
            CharClass::SpaceOrComma => c == ' ' || c == ',',
            CharClass::Comma => c == ',',
            CharClass::Underscore => c == '_',
            CharClass::Newline => c == '\n',
        }
    }

    /// Whether `c` belongs to the class.
    pub fn test(&self, c: char) -> (r: bool)
        ensures
            r == self.has(c),
    {
        match self {
            CharClass::Whitespace => {
                ('\t' <= c && c <= '\r') || c == ' ' || c == '\u{85}' || c == '\u{a0}'
                    || c == '\u{1680}' || ('\u{2000}' <= c && c <= '\u{200a}') || c == '\u{2028}'
                    || c == '\u{2029}' || c == '\u{202f}' || c == '\u{205f}' || c == '\u{3000}'
            },
            CharClass::AsciiWhitespace => {
                c == ' ' || c == '\t' || c == '\n' || c == '\u{c}' || c == '\r'
            },
            CharClass::Parens => c == '(' || c == ')',
            CharClass::RangeSeparators => c == ',' || c == '-' || c == '.',
            CharClass::SpaceOrComma => c == ' ' || c == ',',
            CharClass::Comma => c == ',',
            CharClass::Underscore => c == '_',
            CharClass::Newline => c == '\n',
        }
    }
}

/// The pieces of `s` between the characters of `class`, as `str::split` yields them:
/// `n` separators give `n + 1` pieces, empty ones included.
pub open spec fn split_by(s: Seq<char>, class: CharClass) -> Seq<Seq<char>>
    decreases s.len(),
{
    if s.len() == 0 {
        seq![Seq::<char>::empty()]
    } else {
        let p = split_by(s.drop_last(), class);
        if class.has(s.last()) {
            p.push(Seq::<char>::empty())
        } else {
            p.update(p.len() - 1, p.last().push(s.last()))
        }
    }
}

pub proof fn lemma_split_by_len(s: Seq<char>, class: CharClass)
    ensures
        split_by(s, class).len() >= 1,
    decreases s.len(),
{
    if s.len() > 0 {
        lemma_split_by_len(s.drop_last(), class);
    }
}

/// The views of a vector of character vectors.
pub open spec fn views(v: Seq<Vec<char>>) -> Seq<Seq<char>> {
    v.map_values(|x: Vec<char>| x@)
}

/// Splits `s` at every character of `class`.
pub fn split(s: &[char], class: CharClass) -> (r: Vec<Vec<char>>)
    ensures
        views(r@) == split_by(s@, class),
{
    let mut done: Vec<Vec<char>> = Vec::new();
    let mut cur: Vec<char> = Vec::new();
    let mut i: usize = 0;
    while i < s.len()
        invariant
            i <= s.len(),
            views(done@).push(cur@) == split_by(s@.take(i as int), class),
        decreases s.len() - i,
    {
        let c = s[i];
        assert(s@.take(i + 1).drop_last() == s@.take(i as int));
        if class.test(c) {
            let ghost before = done@;
            let piece = cur;
            done.push(piece);
            cur = Vec::new();
            assert(views(done@) =~= views(before).push(piece@));
        } else {
            cur.push(c);
        }
        i += 1;
        assert(views(done@).push(cur@) =~= split_by(s@.take(i as int), class));
    }
    assert(s@.take(s.len() as int) == s@);
    let ghost before = done@;
    let ghost last = cur@;
    done.push(cur);
    assert(views(done@) =~= views(before).push(last));
    done
}


/// `s` without its leading characters of `class`.
pub open spec fn trim_start_by(s: Seq<char>, class: CharClass) -> Seq<char>
    decreases s.len(),
{
    if s.len() > 0 && class.has(s[0]) {
        trim_start_by(s.skip(1), class)
    } else {
        s
    }
}

/// `s` without its trailing characters of `class`.
pub open spec fn trim_end_by(s: Seq<char>, class: CharClass) -> Seq<char>
    decreases s.len(),
{
    if s.len() > 0 && class.has(s.last()) {
        trim_end_by(s.drop_last(), class)
    } else {
        s
    }
}

/// `s` without its leading and trailing characters of `class`, as `str::trim_matches` gives it.
pub open spec fn trim_by(s: Seq<char>, class: CharClass) -> Seq<char> {
    trim_end_by(trim_start_by(s, class), class)
}

/// A copy of `s[lo..hi]`.
pub fn slice_copy(s: &[char], lo: usize, hi: usize) -> (r: Vec<char>)
    requires
        lo <= hi <= s.len(),
    ensures
        r@ == s@.subrange(lo as int, hi as int),
{
    let mut r: Vec<char> = Vec::new();
    let mut i = lo;
    while i < hi
        invariant
            lo <= i <= hi <= s.len(),
            r@ == s@.subrange(lo as int, i as int),
        decreases hi - i,
    {
        r.push(s[i]);
        i += 1;
        assert(r@ =~= s@.subrange(lo as int, i as int));
    }
    r
}

/// Index of the first character of `s` that is not in `class`, or the length of `s`.
pub fn skip_leading(s: &[char], class: CharClass) -> (lo: usize)
    ensures
        lo <= s.len(),
        trim_start_by(s@, class) == s@.skip(lo as int),
{
    let mut lo: usize = 0;
    assert(s@.skip(0) == s@);
    while lo < s.len() && class.test(s[lo])
        invariant
            lo <= s.len(),
            trim_start_by(s@, class) == trim_start_by(s@.skip(lo as int), class),
        decreases s.len() - lo,
    {
        assert(s@.skip(lo as int).skip(1) == s@.skip(lo + 1));
        lo += 1;
    }
    lo
}

/// Length of `s` without its trailing characters of `class`.
pub fn keep_before_trailing(s: &[char], class: CharClass) -> (hi: usize)
    ensures
        hi <= s.len(),
        trim_end_by(s@, class) == s@.take(hi as int),
{
    let mut hi: usize = s.len();
    assert(s@.take(hi as int) == s@);
    while hi > 0 && class.test(s[hi - 1])
        invariant
            hi <= s.len(),
            trim_end_by(s@, class) == trim_end_by(s@.take(hi as int), class),
        decreases hi,
    {
        assert(s@.take(hi as int).drop_last() == s@.take(hi - 1));
        hi -= 1;
    }
    hi
}

/// `s` without its leading and trailing characters of `class`.
pub fn trim(s: &[char], class: CharClass) -> (r: Vec<char>)
    ensures
        r@ == trim_by(s@, class),
{
    let lo = skip_leading(s, class);
    let rest = slice_copy(s, lo, s.len());
    assert(rest@ == s@.skip(lo as int));
    let hi = keep_before_trailing(rest.as_slice(), class);
    slice_copy(rest.as_slice(), 0, hi)
}


/// The ASCII digit of a value below ten.
pub open spec fn digit_char(d: int) -> char {
    (d + ('0' as int)) as char
}

/// The decimal digits of `n`, as `format!("{}", n)` writes them.
pub open spec fn decimal(n: nat) -> Seq<char>
    decreases n,
{
    if n < 10 {
        seq![digit_char(n as int)]
    } else {
        decimal(n / 10).push(digit_char((n % 10) as int))
    }
}

/// `n` in decimal, left-padded with `0` to at least `width` characters, as
/// `format!("{:0width$}", n)` writes it.
pub open spec fn zero_padded(n: nat, width: nat) -> Seq<char> {
    let d = decimal(n);
    if d.len() < width {
        Seq::new((width - d.len()) as nat, |i: int| '0') + d
    } else {
        d
    }
}

/// The decimal digits of `n`.
pub fn decimal_chars(n: u64) -> (r: Vec<char>)
    ensures
        r@ == decimal(n as nat),
    decreases n,
{
    if n < 10 {
        let c = char_of_digit(n);
        let mut r: Vec<char> = Vec::new();
        r.push(c);
        assert(r@ =~= seq![digit_char(n as int)]);
        r
    } else {
        let mut r = decimal_chars(n / 10);
        r.push(char_of_digit(n % 10));
        r
    }
}

/// The ASCII digit of `d`.
pub fn char_of_digit(d: u64) -> (c: char)
    requires
        d < 10,
    ensures
        c == digit_char(d as int),
{
    if d == 0 { '0' } else if d == 1 { '1' } else if d == 2 { '2' } else if d == 3 { '3' }
    else if d == 4 { '4' } else if d == 5 { '5' } else if d == 6 { '6' } else if d == 7 { '7' }
    else if d == 8 { '8' } else { '9' }
}

/// `n` in decimal, left-padded with `0` to at least `width` characters.
pub fn zero_padded_chars(n: u64, width: usize) -> (r: Vec<char>)
    ensures
        r@ == zero_padded(n as nat, width as nat),
{
    let d = decimal_chars(n);
    if d.len() < width {
        let mut r: Vec<char> = Vec::new();
        let fill = width - d.len();
        let mut i: usize = 0;
        while i < fill
            invariant
                i <= fill,
                r@ == Seq::new(i as nat, |k: int| '0'),
            decreases fill - i,
        {
            r.push('0');
            i += 1;
            assert(r@ =~= Seq::new(i as nat, |k: int| '0'));
        }
        let mut j: usize = 0;
        let ghost pad = r@;
        while j < d.len()
            invariant
                j <= d.len(),
                r@ == pad + d@.take(j as int),
            decreases d.len() - j,
        {
            r.push(d[j]);
            j += 1;
            assert(r@ =~= pad + d@.take(j as int));
        }
        assert(d@.take(d.len() as int) == d@);
        r
    } else {
        d
    }
}

/// `s` with every non-overlapping occurrence of `pat`, from left to right, replaced by `rep`,
/// as `str::replace` gives it for a non-empty pattern.
pub open spec fn replace_all(s: Seq<char>, pat: Seq<char>, rep: Seq<char>) -> Seq<char>
    decreases s.len(),
{
    if pat.len() == 0 || s.len() < pat.len() {
        s
    } else if s.take(pat.len() as int) == pat {
        rep + replace_all(s.skip(pat.len() as int), pat, rep)
    } else {
        seq![s[0]] + replace_all(s.skip(1), pat, rep)
    }
}

/// Replacing a pattern by itself leaves the text as it was.
pub proof fn lemma_replace_same(s: Seq<char>, pat: Seq<char>)
    ensures
        replace_all(s, pat, pat) == s,
    decreases s.len(),
{
    if pat.len() == 0 || s.len() < pat.len() {
    } else if s.take(pat.len() as int) == pat {
        lemma_replace_same(s.skip(pat.len() as int), pat);
        assert(pat + s.skip(pat.len() as int) =~= s);
    } else {
        lemma_replace_same(s.skip(1), pat);
        assert(seq![s[0]] + s.skip(1) =~= s);
    }
}

/// Whether `pat` occurs in `s` at `j`.
pub open spec fn pattern_at(s: Seq<char>, pat: Seq<char>, j: int) -> bool {
    0 <= j && j + pat.len() <= s.len() && s.subrange(j, j + pat.len()) == pat
}

/// Where `pat` occurs nowhere in `s`, replacing it changes nothing.
pub(crate) proof fn lemma_replace_absent(s: Seq<char>, pat: Seq<char>, rep: Seq<char>)
    requires
        pat.len() > 0,
        forall|j: int| !#[trigger] pattern_at(s, pat, j),
    ensures
        replace_all(s, pat, rep) == s,
    decreases s.len(),
{
    if s.len() >= pat.len() {
        assert(!pattern_at(s, pat, 0));
        assert(s.take(pat.len() as int) == s.subrange(0, pat.len() as int));
        let t = s.skip(1);
        assert forall|j: int| !#[trigger] pattern_at(t, pat, j) by {
            if 0 <= j && j + pat.len() <= t.len() {
                assert(t.subrange(j, j + pat.len()) == s.subrange(j + 1, j + 1 + pat.len()));
                assert(!pattern_at(s, pat, j + 1));
            }
        }
        lemma_replace_absent(t, pat, rep);
        assert(seq![s[0]] + t =~= s);
    }
}

/// Where `pat` occurs in `s` at `m` only, replacing it swaps that one occurrence.
pub(crate) proof fn lemma_replace_once(s: Seq<char>, pat: Seq<char>, rep: Seq<char>, m: int)
    requires
        pat.len() > 0,
        pattern_at(s, pat, m),
        forall|j: int| j != m ==> !#[trigger] pattern_at(s, pat, j),
    ensures
        replace_all(s, pat, rep) == s.take(m) + rep + s.skip(m + pat.len()),
    decreases m,
{
    let k = pat.len() as int;
    if m == 0 {
        assert(s.take(k) == s.subrange(0, k));
        assert(s.take(k) == pat);
        let t = s.skip(k);
        assert forall|j: int| !#[trigger] pattern_at(t, pat, j) by {
            if 0 <= j && j + pat.len() <= t.len() {
                assert(t.subrange(j, j + pat.len()) == s.subrange(j + k, j + k + pat.len()));
                assert(!pattern_at(s, pat, j + k));
            }
        }
        lemma_replace_absent(t, pat, rep);
        assert(s.take(0) + rep + t =~= rep + t);
    } else {
        assert(!pattern_at(s, pat, 0));
        assert(s.take(k) == s.subrange(0, k));
        let t = s.skip(1);
        assert(t.subrange(m - 1, m - 1 + k) == s.subrange(m, m + k));
        assert forall|j: int| j != m - 1 implies !#[trigger] pattern_at(t, pat, j) by {
            if 0 <= j && j + pat.len() <= t.len() {
                assert(t.subrange(j, j + pat.len()) == s.subrange(j + 1, j + 1 + pat.len()));
                assert(!pattern_at(s, pat, j + 1));
            }
        }
        lemma_replace_once(t, pat, rep, m - 1);
        assert(seq![s[0]] + (t.take(m - 1) + rep + t.skip(m - 1 + k)) =~= s.take(m) + rep + s.skip(m + k));
    }
}

/// The decimal digits of `n` are digits, at least one, and their value is `n`.
pub(crate) proof fn lemma_decimal_digits(n: nat)
    ensures
        all_digits(decimal(n)),
        decimal(n).len() >= 1,
        digits_value(decimal(n)) == n,
    decreases n,
{
    let d = decimal(n);
    if n < 10 {
        assert(digit_char(n as int) as int == n + ('0' as int));
        assert(d.drop_last() =~= Seq::<char>::empty());
        assert(digits_value(d.drop_last()) == 0);
        assert(d.last() == digit_char(n as int));
    } else {
        lemma_decimal_digits(n / 10);
        let pre = decimal(n / 10);
        assert(d.drop_last() =~= pre);
        assert(digit_char((n % 10) as int) as int == (n % 10) + ('0' as int));
        assert(d.last() == digit_char((n % 10) as int));
        assert(n == 10 * (n / 10) + n % 10);
        assert(digits_value(d) == 10 * digits_value(pre) + digit_value(d.last()));
        assert forall|i: int| 0 <= i < d.len() implies is_digit(#[trigger] d[i]) by {
            if i < pre.len() {
                assert(d[i] == pre[i]);
            }
        }
    }
}

/// Zeros in front of digits do not change their value.
proof fn lemma_leading_zeros(z: Seq<char>, d: Seq<char>)
    requires
        forall|i: int| 0 <= i < z.len() ==> #[trigger] z[i] == '0',
    ensures
        digits_value(z + d) == digits_value(d),
    decreases z.len() + d.len(),
{
    if d.len() == 0 {
        assert(z + d =~= z);
        if z.len() > 0 {
            lemma_leading_zeros(z.drop_last(), d);
            assert(z.drop_last() + d =~= z.drop_last());
        }
    } else {
        lemma_leading_zeros(z, d.drop_last());
        assert((z + d).drop_last() =~= z + d.drop_last());
        assert((z + d).last() == d.last());
    }
}

/// `n` padded with zeros is made of digits, as long as the width or the digits of `n`,
/// and its value is `n`.
pub(crate) proof fn lemma_zero_padded(n: nat, w: nat)
    ensures
        all_digits(zero_padded(n, w)),
        zero_padded(n, w).len() == if decimal(n).len() < w { w as int } else { decimal(n).len() as int },
        digits_value(zero_padded(n, w)) == n,
{
    lemma_decimal_digits(n);
    let d = decimal(n);
    if d.len() < w {
        let z = Seq::new((w - d.len()) as nat, |i: int| '0');
        lemma_leading_zeros(z, d);
        assert forall|i: int| 0 <= i < (z + d).len() implies is_digit(#[trigger] (z + d)[i]) by {
            if i >= z.len() {
                assert((z + d)[i] == d[i - z.len()]);
            }
        }
    }
}

/// A string of digits is its own value, padded with zeros to its length.
#[verifier::spinoff_prover]
pub(crate) proof fn lemma_zero_padded_of_digits(v: Seq<char>)
    requires
        all_digits(v),
        v.len() >= 1,
    ensures
        digits_value(v) >= 0,
        zero_padded(digits_value(v) as nat, v.len()) == v,
    decreases v.len(),
{
    lemma_digits_value_nonneg(v);
    let c = v.last();
    let x = digits_value(v);
    assert(is_digit(c));
    assert(digit_char(digit_value(c)) as int == c as int);
    if v.len() == 1 {
        assert(v.drop_last() =~= Seq::<char>::empty());
        assert(digits_value(v.drop_last()) == 0);
        assert(x == digit_value(c));
        assert(decimal(x as nat) == seq![digit_char(x)]);
        assert(digit_char(x) == c);
        assert(v =~= seq![c]);
    } else {
        let w = v.drop_last();
        assert forall|i: int| 0 <= i < w.len() implies is_digit(#[trigger] w[i]) by {
            assert(w[i] == v[i]);
        }
        lemma_zero_padded_of_digits(w);
        let a = digits_value(w);
        if a == 0 {
            assert(decimal(x as nat) =~= seq![c]);
            assert(decimal(0) =~= seq!['0']);
            assert forall|i: int| 0 <= i < w.len() implies #[trigger] w[i] == '0' by {
                if 1 < w.len() {
                    let z = Seq::new((w.len() - 1) as nat, |k: int| '0');
                    assert(w == z + seq!['0']);
                    if i < z.len() {
                        assert(w[i] == z[i]);
                    }
                }
            }
            let z2 = Seq::new((v.len() - 1) as nat, |k: int| '0');
            assert(zero_padded(x as nat, v.len()) == z2 + seq![c]);
            assert(z2 + seq![c] =~= v) by {
                assert forall|i: int| 0 <= i < v.len() implies #[trigger] (z2 + seq![c])[i] == v[i] by {
                    if i < v.len() - 1 {
                        assert(v[i] == w[i]);
                    }
                }
            }
        } else {
            assert(x / 10 == a && x % 10 == digit_value(c));
            lemma_decimal_digits(a as nat);
            let da = decimal(a as nat);
            assert(decimal(x as nat) == da.push(digit_char(digit_value(c))));
            assert(decimal(x as nat) =~= da.push(c));
            if da.len() < w.len() {
                let z = Seq::new((w.len() - da.len()) as nat, |k: int| '0');
                assert(w == z + da);
                let z2 = Seq::new((v.len() - da.len() - 1) as nat, |k: int| '0');
                assert(z2 == z);
                assert(zero_padded(x as nat, v.len()) == z2 + da.push(c));
                assert(z2 + da.push(c) =~= (z + da).push(c));
                assert(w.push(c) =~= v);
            } else {
                assert(w == da);
                assert(da.push(c) =~= v);
            }
        }
    }
}

/// Whether `pat` occurs in `s` at `i`.
pub fn matches_at(s: &[char], pat: &[char], i: usize) -> (r: bool)
    requires
        i <= s.len(),
    ensures
        r == (i + pat.len() <= s.len() && s@.subrange(i as int, i + pat.len()) == pat@),
{
    if pat.len() > s.len() - i {
        return false;
    }
    let mut k: usize = 0;
    while k < pat.len()
        invariant
            k <= pat.len(),
            i + pat.len() <= s.len(),
            forall|j: int| 0 <= j < k ==> s@[i + j] == pat@[j],
        decreases pat.len() - k,
    {
        if s[i + k] != pat[k] {
            assert(s@.subrange(i as int, i + pat.len())[k as int] != pat@[k as int]);
            return false;
        }
        k += 1;
    }
    assert(s@.subrange(i as int, i + pat.len()) =~= pat@);
    true
}

/// Whether `pat` occurs somewhere in `s`, as `str::contains` finds it.
#[verifier::opaque]
pub open spec fn occurs(s: Seq<char>, pat: Seq<char>) -> bool {
    exists|i: int| 0 <= i && i + pat.len() <= s.len() && #[trigger] s.subrange(i, i + pat.len()) == pat
}

/// Whether `pat` occurs somewhere in `s`.
pub fn contains(s: &[char], pat: &[char]) -> (r: bool)
    ensures
        r == occurs(s@, pat@),
{
    let mut i: usize = 0;
    loop
        invariant
            i <= s.len(),
            forall|j: int| 0 <= j < i ==> !(j + pat.len() <= s.len() && #[trigger] s@.subrange(j, j + pat.len()) == pat@),
        decreases s.len() - i,
    {
        if matches_at(s, pat, i) {
            proof {
                reveal(occurs);
            }
            return true;
        }
        if i == s.len() {
            reveal(occurs);
            assert forall|j: int| 0 <= j && j + pat.len() <= s.len() implies #[trigger] s@.subrange(j, j + pat.len()) != pat@ by {
                assert(j <= i);
            }
            return false;
        }
        i += 1;
    }
}

/// Where `pat` first occurs in `s`.
#[verifier::opaque]
pub open spec fn first_occurrence(s: Seq<char>, pat: Seq<char>) -> Option<int> {
    if exists|i: int| 0 <= i && i + pat.len() <= s.len() && #[trigger] s.subrange(i, i + pat.len()) == pat {
        Some(choose|i: int| 0 <= i && i + pat.len() <= s.len() && #[trigger] s.subrange(i, i + pat.len()) == pat
            && forall|j: int| 0 <= j < i ==> !(j + pat.len() <= s.len() && #[trigger] s.subrange(j, j + pat.len()) == pat))
    } else {
        None
    }
}

/// Where `pat` first occurs in `s`.
pub fn find_text(s: &[char], pat: &[char]) -> (r: Option<usize>)
    ensures
        match r {
            Some(i) => first_occurrence(s@, pat@) == Some(i as int) && i + pat.len() <= s.len(),
            None => first_occurrence(s@, pat@) is None,
        },
{
    let mut i: usize = 0;
    loop
        invariant
            i <= s.len(),
            forall|j: int| 0 <= j < i ==> !(j + pat.len() <= s.len() && #[trigger] s@.subrange(j, j + pat.len()) == pat@),
        decreases s.len() - i,
    {
        if matches_at(s, pat, i) {
            proof {
                reveal(first_occurrence);
                let w = choose|k: int| 0 <= k && k + pat.len() <= s.len() && #[trigger] s@.subrange(k, k + pat.len()) == pat@
                    && forall|j: int| 0 <= j < k ==> !(j + pat.len() <= s.len() && #[trigger] s@.subrange(j, j + pat.len()) == pat@);
                assert(0 <= w && w + pat.len() <= s.len() && s@.subrange(w, w + pat.len()) == pat@
                    && forall|j: int| 0 <= j < w ==> !(j + pat.len() <= s.len() && #[trigger] s@.subrange(j, j + pat.len()) == pat@));
                if w < i {
                    assert(!(w + pat.len() <= s.len() && s@.subrange(w, w + pat.len()) == pat@));
                }
                if i < w {
                    assert(!(i + pat.len() <= s.len() && s@.subrange(i as int, i + pat.len()) == pat@));
                }
            }
            return Some(i);
        }
        if i == s.len() {
            reveal(first_occurrence);
            assert forall|j: int| 0 <= j && j + pat.len() <= s.len() implies #[trigger] s@.subrange(j, j + pat.len()) != pat@ by {
                assert(j <= i);
            }
            return None;
        }
        i += 1;
    }
}

/// The text of `s` before the first `pat`, or all of it, as `split(pat).next()` gives it.
pub open spec fn before_first(s: Seq<char>, pat: Seq<char>) -> Seq<char> {
    match first_occurrence(s, pat) {
        Some(i) => s.take(i),
        None => s,
    }
}

/// The text of `s` after the first `pat`, up to the next one, as `split(pat).nth(1)` gives it;
/// `None` where `pat` does not occur.
pub open spec fn second_piece(s: Seq<char>, pat: Seq<char>) -> Option<Seq<char>> {
    match first_occurrence(s, pat) {
        Some(i) => Some(before_first(s.skip(i + pat.len()), pat)),
        None => None,
    }
}

/// The length of the run of characters outside `class` that starts `t`.
pub open spec fn word_len_by(t: Seq<char>, class: CharClass) -> int
    decreases t.len(),
{
    if t.len() == 0 || class.has(t[0]) {
        0
    } else {
        1 + word_len_by(t.skip(1), class)
    }
}

/// The first of the words of `s` that the characters of `class` separate.
pub open spec fn first_word_by(s: Seq<char>, class: CharClass) -> Option<Seq<char>> {
    let t = trim_start_by(s, class);
    if t.len() == 0 {
        None
    } else {
        Some(t.take(word_len_by(t, class)))
    }
}

/// Where the last run of characters outside `class` that ends `t` starts.
pub open spec fn word_start_by(t: Seq<char>, class: CharClass) -> int
    decreases t.len(),
{
    if t.len() > 0 && !class.has(t.last()) {
        word_start_by(t.drop_last(), class)
    } else {
        t.len() as int
    }
}

/// The last of the words of `s` that the characters of `class` separate.
pub open spec fn last_word_by(s: Seq<char>, class: CharClass) -> Option<Seq<char>> {
    let t = trim_end_by(s, class);
    if t.len() == 0 {
        None
    } else {
        Some(t.subrange(word_start_by(t, class), t.len() as int))
    }
}

proof fn lemma_word_len_bound(t: Seq<char>, class: CharClass)
    ensures
        0 <= word_len_by(t, class) <= t.len(),
    decreases t.len(),
{
    if !(t.len() == 0 || class.has(t[0])) {
        lemma_word_len_bound(t.skip(1), class);
    }
}

/// The first word of `s`.
pub fn first_word(s: &[char], class: CharClass) -> (r: Option<Vec<char>>)
    ensures
        match first_word_by(s@, class) {
            Some(w) => r matches Some(x) && x@ == w,
            None => r is None,
        },
{
    let lo = skip_leading(s, class);
    if lo == s.len() {
        return None;
    }
    let ghost t = s@.skip(lo as int);
    let mut hi = lo;
    assert(s@.skip(hi as int) == t);
    while hi < s.len() && !class.test(s[hi])
        invariant
            lo <= hi <= s.len(),
            t == s@.skip(lo as int),
            word_len_by(t, class) == (hi - lo) + word_len_by(s@.skip(hi as int), class),
        decreases s.len() - hi,
    {
        assert(s@.skip(hi as int).skip(1) == s@.skip(hi + 1));
        hi += 1;
    }
    proof {
        lemma_word_len_bound(s@.skip(hi as int), class);
    }
    assert(t.take(word_len_by(t, class)) == s@.subrange(lo as int, hi as int));
    Some(slice_copy(s, lo, hi))
}

/// The last word of `s`.
pub fn last_word(s: &[char], class: CharClass) -> (r: Option<Vec<char>>)
    ensures
        match last_word_by(s@, class) {
            Some(w) => r matches Some(x) && x@ == w,
            None => r is None,
        },
{
    let hi = keep_before_trailing(s, class);
    if hi == 0 {
        return None;
    }
    let ghost t = s@.take(hi as int);
    let mut lo = hi;
    while lo > 0 && !class.test(s[lo - 1])
        invariant
            lo <= hi <= s.len(),
            t == s@.take(hi as int),
            word_start_by(t, class) == word_start_by(s@.take(lo as int), class),
        decreases lo,
    {
        assert(s@.take(lo as int).drop_last() == s@.take(lo - 1));
        lo -= 1;
    }
    assert(t.subrange(lo as int, hi as int) == s@.subrange(lo as int, hi as int));
    Some(slice_copy(s, lo, hi))
}

/// `s` with every occurrence of the non-empty `pat` replaced by `rep`.
pub fn replace(s: &[char], pat: &[char], rep: &[char]) -> (r: Vec<char>)
    requires
        pat.len() > 0,
    ensures
        r@ == replace_all(s@, pat@, rep@),
{
    let mut out: Vec<char> = Vec::new();
    let mut i: usize = 0;
    assert(s@.skip(0) == s@);
    while i < s.len()
        invariant
            i <= s.len(),
            pat.len() > 0,
            out@ + replace_all(s@.skip(i as int), pat@, rep@) == replace_all(s@, pat@, rep@),
        decreases s.len() - i,
    {
        let ghost rest = s@.skip(i as int);
        if matches_at(s, pat, i) {
            assert(rest.take(pat.len() as int) == s@.subrange(i as int, i + pat.len()));
            assert(rest.skip(pat.len() as int) == s@.skip(i + pat.len()));
            let ghost before = out@;
            let mut k: usize = 0;
            while k < rep.len()
                invariant
                    k <= rep.len(),
                    out@ == before + rep@.take(k as int),
                decreases rep.len() - k,
            {
                out.push(rep[k]);
                k += 1;
                assert(out@ =~= before + rep@.take(k as int));
            }
            assert(rep@.take(rep.len() as int) == rep@);
            assert(out@ + replace_all(s@.skip(i + pat.len()), pat@, rep@) =~= before + replace_all(rest, pat@, rep@));
            i = i + pat.len();
        } else {
            proof {
                if rest.len() >= pat@.len() {
                    assert(rest.take(pat.len() as int) == s@.subrange(i as int, i + pat.len()));
                }
            }
            assert(rest.skip(1) == s@.skip(i + 1));
            let ghost before = out@;
            out.push(s[i]);
            assert(out@ + replace_all(s@.skip(i + 1), pat@, rep@) =~= before + replace_all(rest, pat@, rep@));
            i = i + 1;
        }
    }
    assert(s@.skip(s.len() as int) =~= Seq::<char>::empty());
    assert(out@ + Seq::<char>::empty() =~= out@);
    out
}


#[verifier::external_type_specification]
#[verifier::external_body]
pub struct ExParseIntError(core::num::ParseIntError);

/// `str::parse::<u32>`: the std documentation says that it accepts an optional `+` followed by
/// ASCII digits only, and fails on anything else and on values beyond `u32::MAX`. The contract
/// says that, over `parse_unsigned`; which `ParseIntError` comes back is left unsaid.
#[verifier::external_body]
pub fn std_parse_u32(s: &str) -> (r: Result<u32, core::num::ParseIntError>)
    ensures
        match parse_unsigned(s@, u32::MAX as int) {
            Some(v) => r == Ok::<u32, core::num::ParseIntError>(v as u32),
            None => r is Err,
        },
{
    s.parse::<u32>()
}

/// The decimal digits of `n` as a string.
pub fn decimal_string(n: u64) -> (r: String)
    ensures
        r@ == decimal(n as nat),
{
    let cs = decimal_chars(n);
    string_of(cs.as_slice())
}

} // verus!
