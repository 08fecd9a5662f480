use vstd::prelude::*;

use crate::cli::search::join_with;
use crate::text::{chars_of, contains, occurs, split, split_by, views, CharClass};

verus! {

/// `l` without the carriage return that ends it, if any.
pub open spec fn strip_cr(l: Seq<char>) -> Seq<char> {
    if l.len() > 0 && l.last() == '\r' {
        l.drop_last()
    } else {
        l
    }
}

/// The line that piece `i` of a text split at line feeds makes: a piece that a line feed ends
/// loses its carriage return, the last piece is kept as it is.
pub open spec fn line_at(ps: Seq<Seq<char>>, i: int) -> Seq<char> {
    if i < ps.len() - 1 {
        strip_cr(ps[i])
    } else {
        ps[i]
    }
}

/// How many lines the pieces make: an empty last piece makes none.
pub open spec fn line_count(ps: Seq<Seq<char>>) -> int {
    if ps.len() > 0 && ps.last().len() == 0 {
        ps.len() - 1
    } else {
        ps.len() as int
    }
}

/// The first `k` lines of the pieces that hold `pat`, in order.
pub open spec fn matching_upto(ps: Seq<Seq<char>>, k: int, pat: Seq<char>) -> Seq<Seq<char>>
    decreases k,
{
    if k <= 0 {
        Seq::<Seq<char>>::empty()
    } else if occurs(line_at(ps, k - 1), pat) {
        matching_upto(ps, k - 1, pat).push(line_at(ps, k - 1))
    } else {
        matching_upto(ps, k - 1, pat)
    }
}

/// The lines of `content`, as `str::lines` gives them, that hold `pat`.
pub open spec fn matched_lines(content: Seq<char>, pat: Seq<char>) -> Seq<Seq<char>> {
    let ps = split_by(content, CharClass::Newline);
    matching_upto(ps, line_count(ps), pat)
}

/// The UTF-8 encoding of a character.
pub open spec fn utf8_of(c: char) -> Seq<u8> {
    let u = c as int;
    if u < 0x80 {
        seq![u as u8]
    } else if u < 0x800 {
        seq![(0xC0 + u / 64) as u8, (0x80 + u % 64) as u8]
    } else if u < 0x10000 {
        seq![(0xE0 + u / 4096) as u8, (0x80 + (u / 64) % 64) as u8, (0x80 + u % 64) as u8]
    } else {
        seq![(0xF0 + u / 262144) as u8, (0x80 + (u / 4096) % 64) as u8, (0x80 + (u / 64) % 64) as u8, (0x80 + u % 64) as u8]
    }
}

/// The UTF-8 encoding of a text.
pub open spec fn utf8_text(s: Seq<char>) -> Seq<u8>
    decreases s.len(),
{
    if s.len() == 0 {
        Seq::<u8>::empty()
    } else {
        utf8_text(s.drop_last()) + utf8_of(s.last())
    }
}

/// Appends the UTF-8 encoding of `c`.
fn push_utf8(out: &mut Vec<u8>, c: char)
    ensures
        final(out)@ == old(out)@ + utf8_of(c),
{
    let u = c as u32;
    assert(u <= 0x10FFFF);
    if u < 0x80 {
        out.push(u as u8);
    } else if u < 0x800 {
        out.push((0xC0 + u / 64) as u8);
        out.push((0x80 + u % 64) as u8);
    } else if u < 0x10000 {
        out.push((0xE0 + u / 4096) as u8);
        out.push((0x80 + (u / 64) % 64) as u8);
        out.push((0x80 + u % 64) as u8);
    } else {
        out.push((0xF0 + u / 262144) as u8);
        out.push((0x80 + (u / 4096) % 64) as u8);
        out.push((0x80 + (u / 64) % 64) as u8);
        out.push((0x80 + u % 64) as u8);
    }
    assert(final(out)@ =~= old(out)@ + utf8_of(c));
}

/// `l` without the carriage return that ends it.
fn without_cr(l: &Vec<char>) -> (r: Vec<char>)
    ensures
        r@ == strip_cr(l@),
{
    let mut r = l.clone();
    if r.len() > 0 && r[r.len() - 1] == '\r' {
        r.pop();
    }
    r
}

/// Writes the lines of `content` that hold `pattern`, in order and separated by line feeds,
/// to `out` in UTF-8.
pub fn find_matches(content: &str, pattern: &str, out: &mut Vec<u8>)
    ensures
        final(out)@ == old(out)@ + utf8_text(join_with(matched_lines(content@, pattern@), "\n"@)),
{
    let cs = chars_of(content);
    let pat = chars_of(pattern);
    let pieces = split(cs.as_slice(), CharClass::Newline);
    let ghost ps = views(pieces@);
    let n: usize = if pieces.len() > 0 && pieces[pieces.len() - 1].len() == 0 { pieces.len() - 1 } else { pieces.len() };
    assert(pieces.len() > 0 ==> ps.last() == pieces@[pieces.len() - 1]@);
    assert(n == line_count(ps));
    proof {
        reveal_strlit("\n");
    }
    let mut text: Vec<char> = Vec::new();
    let mut count: usize = 0;
    let mut i: usize = 0;
    while i < n
        invariant
            i <= n <= pieces.len(),
            ps == views(pieces@),
            ps.len() == pieces.len(),
            pat@ == pattern@,
            count == matching_upto(ps, i as int, pat@).len(),
            count <= i,
            text@ == join_with(matching_upto(ps, i as int, pat@), "\n"@),
        decreases n - i,
    {
        assert(ps[i as int] == pieces@[i as int]@);
        let line = if i + 1 < pieces.len() { without_cr(&pieces[i]) } else { pieces[i].clone() };
        assert(line@ == line_at(ps, i as int));
        if contains(line.as_slice(), pat.as_slice()) {
            let ghost before = matching_upto(ps, i as int, pat@);
            assert(before.push(line@).drop_last() == before);
            if count > 0 {
                text.push('\n');
            }
            let mut k: usize = 0;
            let ghost base = text@;
            while k < line.len()
                invariant
                    k <= line.len(),
                    text@ == base + line@.take(k as int),
                decreases line.len() - k,
            {
                text.push(line[k]);
                k += 1;
                assert(text@ =~= base + line@.take(k as int));
            }
            assert(line@.take(k as int) =~= line@);
            proof {
                reveal_strlit("\n");
                if count == 0 {
                    assert(before.len() == 0);
                    assert(before.push(line@).len() == 1);
                    assert(before.push(line@)[0] == line@);
                } else {
                    assert(before.push(line@).len() > 1);
                    assert(before.push(line@).last() == line@);
                    assert(base == join_with(before, "\n"@) + "\n"@);
                }
            }
            assert(text@ =~= join_with(before.push(line@), "\n"@));
            count += 1;
        }
        i += 1;
    }
    let mut j: usize = 0;
    let ghost start = out@;
    while j < text.len()
        invariant
            j <= text.len(),
            out@ == start + utf8_text(text@.take(j as int)),
        decreases text.len() - j,
    {
        assert(text@.take(j + 1).drop_last() == text@.take(j as int));
        push_utf8(out, text[j]);
        j += 1;
        assert(out@ =~= start + utf8_text(text@.take(j as int)));
    }
    assert(text@.take(j as int) =~= text@);
}

} // verus!
