use vstd::prelude::*;

use crate::parser::{lowercase_of, recase_string, recased};
use crate::text::{chars_of, replace, replace_all, string_of, zero_padded, zero_padded_chars};

verus! {

/// `num` in decimal, left-padded with `0` to `alignment` digits.
pub fn zfill(num: u64, alignment: usize) -> (r: String)
    ensures
        r@ == zero_padded(num as nat, alignment as nat),
{
    string_of(zero_padded_chars(num, alignment).as_slice())
}

/// `_` followed by `num` left-padded with `0` to `alignment` digits.
pub fn zfill_underscored(num: u64, alignment: usize) -> (r: String)
    ensures
        r@ == seq!['_'] + zero_padded(num as nat, alignment as nat),
{
    let digits = zero_padded_chars(num, alignment);
    let mut out: Vec<char> = Vec::new();
    out.push('_');
    let mut i: usize = 0;
    while i < digits.len()
        invariant
            i <= digits.len(),
            out@ == seq!['_'] + digits@.take(i as int),
        decreases digits.len() - i,
    {
        out.push(digits[i]);
        i += 1;
        assert(out@ =~= seq!['_'] + digits@.take(i as int));
    }
    assert(digits@.take(i as int) =~= digits@);
    string_of(out.as_slice())
}

/// Fills the `_{}` placeholder of a URL with `_` and the episode number, zero-padded to
/// `alignment` digits.
pub fn fill_placeholder(url: &str, num: u64, alignment: usize) -> (r: String)
    ensures
        r@ == replace_all(url@, "_{}"@, seq!['_'] + zero_padded(num as nat, alignment as nat)),
{
    let cs = chars_of(url);
    let pat = chars_of("_{}");
    let rep = chars_of(zfill_underscored(num, alignment).as_str());
    proof {
        reveal_strlit("_{}");
    }
    let out = replace(cs.as_slice(), pat.as_slice(), rep.as_slice());
    string_of(out.as_slice())
}

/// The progress message of an episode: `Ep.`, its zero-padded number, and the anime name.
pub fn gen_msg(num: u64, alignment: usize, name: &str) -> (r: String)
    ensures
        r@ == "Ep. "@ + zero_padded(num as nat, alignment as nat) + " "@ + name@,
{
    let mut out = chars_of("Ep. ");
    let ghost base = out@;
    let digits = zero_padded_chars(num, alignment);
    let mut i: usize = 0;
    while i < digits.len()
        invariant
            i <= digits.len(),
            out@ == base + digits@.take(i as int),
        decreases digits.len() - i,
    {
        out.push(digits[i]);
        i += 1;
        assert(out@ =~= base + digits@.take(i as int));
    }
    assert(digits@.take(i as int) =~= digits@);
    let ns = chars_of(name);
    let ghost mid = out@;
    out.push(' ');
    proof {
        reveal_strlit(" ");
    }
    assert(out@ =~= mid + " "@);
    let ghost base2 = out@;
    let mut j: usize = 0;
    while j < ns.len()
        invariant
            j <= ns.len(),
            out@ == base2 + ns@.take(j as int),
        decreases ns.len() - j,
    {
        out.push(ns[j]);
        j += 1;
        assert(out@ =~= base2 + ns@.take(j as int));
    }
    assert(ns@.take(j as int) =~= ns@);
    string_of(out.as_slice())
}

/// Turns a CamelCase text into snake_case.
pub fn to_snake_case(s: &str) -> (r: String)
    ensures
        r@ == lowercase_of(recased(s@, '_')),
{
    recase_string(s, '_', true)
}

} // verus!
