use vstd::prelude::*;

pub mod paths;
pub mod tui;

use crate::error::UrlError;
use crate::parser::{first_piece, last_segment, lowercase_of, parse_name, recase_string, recased, result_view};
use crate::text::{chars_of, find_text, first_occurrence, slice_copy, string_of};

verus! {

/// `root` with `part` pushed onto it as `PathBuf::push` does on Unix: an absolute `part`
/// replaces the path, else a `/` joins them unless `root` is empty or already ends with one.
pub open spec fn join_path(root: Seq<char>, part: Seq<char>) -> Seq<char> {
    if part.len() > 0 && part[0] == '/' {
        part
    } else if root.len() == 0 || root.last() == '/' {
        root + part
    } else {
        root + seq!['/'] + part
    }
}

/// Pushes `part` onto the path `root`.
pub fn push_path(root: &str, part: &str) -> (r: String)
    ensures
        r@ == join_path(root@, part@),
{
    let rs = chars_of(root);
    let ps = chars_of(part);
    if ps.len() > 0 && ps[0] == '/' {
        return string_of(ps.as_slice());
    }
    let mut out = rs;
    if !(out.len() == 0 || out[out.len() - 1] == '/') {
        out.push('/');
    }
    let ghost base = out@;
    let mut i: usize = 0;
    while i < ps.len()
        invariant
            i <= ps.len(),
            out@ == base + ps@.take(i as int),
        decreases ps.len() - i,
    {
        out.push(ps[i]);
        i += 1;
        assert(out@ =~= base + ps@.take(i as int));
    }
    assert(ps@.take(ps.len() as int) == ps@);
    string_of(out.as_slice())
}

/// Turns a CamelCase text into Title Case: words are set apart by spaces, and so is the first
/// number.
pub fn to_title_case(s: &str) -> (r: String)
    ensures
        r@ == recased(s@, ' '),
{
    recase_string(s, ' ', false)
}

/// The directory in which the episodes of `url` are stored: `dir` itself, or, where
/// `auto_dir` is set, the sub-directory named after the anime, in snake case.
pub fn get_path(dir: &str, auto_dir: bool, url: &str) -> (r: Result<String, UrlError>)
    ensures
        !auto_dir ==> result_view(r) == Ok::<Seq<char>, UrlError>(dir@),
        auto_dir ==> result_view(r) == match last_segment(url@) {
            Ok(seg) => Ok(join_path(dir@, lowercase_of(recased(first_piece(seg), '_')))),
            Err(e) => Err(e),
        },
{
    if !auto_dir {
        return Ok(string_of(chars_of(dir).as_slice()));
    }
    match parse_name(url) {
        Ok(name) => {
            let sub = recase_string(name.as_str(), '_', true);
            Ok(push_path(dir, sub.as_str()))
        },
        Err(e) => Err(e),
    }
}

/// An ASCII letter.
pub open spec fn is_ascii_alpha(c: char) -> bool {
    ('a' <= c && c <= 'z') || ('A' <= c && c <= 'Z')
}

/// An ASCII letter or digit.
pub open spec fn is_ascii_alnum(c: char) -> bool {
    is_ascii_alpha(c) || ('0' <= c && c <= '9')
}

/// Where the run of ASCII letters that starts at `i` ends.
pub open spec fn alpha_end(s: Seq<char>, i: int) -> int
    decreases s.len() - i,
{
    if 0 <= i < s.len() && is_ascii_alpha(s[i]) {
        alpha_end(s, i + 1)
    } else {
        i
    }
}

/// Where the run of ASCII letters and digits that starts at `i` ends.
pub open spec fn alnum_end(s: Seq<char>, i: int) -> int
    decreases s.len() - i,
{
    if 0 <= i < s.len() && is_ascii_alnum(s[i]) {
        alnum_end(s, i + 1)
    } else {
        i
    }
}

/// The session cookie that an AnimeWorld page sets: from the first `AWCookie`, the name made
/// of ASCII letters, then `=`, then a value of at least one ASCII letter or digit; `None`
/// where the page holds no such text.
pub open spec fn aw_cookie(s: Seq<char>) -> Option<Seq<char>> {
    match first_occurrence(s, "AWCookie"@) {
        None => None,
        Some(i) => {
            let k = alpha_end(s, i);
            if k < s.len() && s[k] == '=' && alnum_end(s, k + 1) > k + 1 {
                Some(s.subrange(i, k) + "="@ + s.subrange(k + 1, alnum_end(s, k + 1)))
            } else {
                None
            }
        },
    }
}

proof fn lemma_alpha_end_bound(s: Seq<char>, i: int)
    requires
        0 <= i <= s.len(),
    ensures
        i <= alpha_end(s, i) <= s.len(),
    decreases s.len() - i,
{
    if i < s.len() && is_ascii_alpha(s[i]) {
        lemma_alpha_end_bound(s, i + 1);
    }
}

proof fn lemma_alnum_end_bound(s: Seq<char>, i: int)
    requires
        0 <= i <= s.len(),
    ensures
        i <= alnum_end(s, i) <= s.len(),
    decreases s.len() - i,
{
    if i < s.len() && is_ascii_alnum(s[i]) {
        lemma_alnum_end_bound(s, i + 1);
    }
}

/// The session cookie of an AnimeWorld page, as a header value ending with `; `; just `; `
/// where the page sets none.
pub fn parse_aw_cookie(input: &str) -> (r: Result<String, UrlError>)
    ensures
        r matches Ok(c) && c@ == match aw_cookie(input@) {
            Some(p) => p,
            None => Seq::<char>::empty(),
        } + "; "@,
{
    let cs = chars_of(input);
    let marker = chars_of("AWCookie");
    let mut out: Vec<char> = Vec::new();
    match find_text(cs.as_slice(), marker.as_slice()) {
        Some(i) => {
            let mut k = i;
            proof {
                lemma_alpha_end_bound(cs@, i as int);
            }
            while k < cs.len() && (('a' <= cs[k] && cs[k] <= 'z') || ('A' <= cs[k] && cs[k] <= 'Z'))
                invariant
                    i <= k <= cs.len(),
                    alpha_end(cs@, i as int) == alpha_end(cs@, k as int),
                decreases cs.len() - k,
            {
                k += 1;
            }
            if k < cs.len() && cs[k] == '=' {
                let mut e = k + 1;
                proof {
                    lemma_alnum_end_bound(cs@, e as int);
                }
                while e < cs.len() && (('a' <= cs[e] && cs[e] <= 'z') || ('A' <= cs[e] && cs[e] <= 'Z') || ('0' <= cs[e] && cs[e] <= '9'))
                    invariant
                        k + 1 <= e <= cs.len(),
                        alnum_end(cs@, k + 1) == alnum_end(cs@, e as int),
                    decreases cs.len() - e,
                {
                    e += 1;
                }
                if e > k + 1 {
                    out = slice_copy(cs.as_slice(), i, k);
                    out.push('=');
                    let ghost base = out@;
                    let mut j = k + 1;
                    while j < e
                        invariant
                            k + 1 <= j <= e <= cs.len(),
                            out@ == base + cs@.subrange(k + 1, j as int),
                        decreases e - j,
                    {
                        out.push(cs[j]);
                        j += 1;
                        assert(out@ =~= base + cs@.subrange(k + 1, j as int));
                    }
                    proof {
                        reveal_strlit("=");
                    }
                    assert(out@ =~= cs@.subrange(i as int, k as int) + "="@ + cs@.subrange(k + 1, e as int));
                }
            }
        },
        None => {},
    }
    let ghost body = out@;
    out.push(';');
    out.push(' ');
    proof {
        reveal_strlit("; ");
    }
    assert(out@ =~= body + "; "@);
    Ok(string_of(out.as_slice()))
}

} // verus!
