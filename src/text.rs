//! Character-level helpers shared by the parsers: whitespace, trimming and
//! conversion between strings and character vectors.

use vstd::prelude::*;

verus! {

/// Unicode `White_Space`, the set that `char::is_whitespace` tests.
pub open spec fn is_ws_spec(c: char) -> bool {
    let v = c as u32;
    (0x9 <= v && v <= 0xD) || v == 0x20 || v == 0x85 || v == 0xA0 || v == 0x1680 || (0x2000
        <= v && v <= 0x200A) || v == 0x2028 || v == 0x2029 || v == 0x202F || v == 0x205F || v
        == 0x3000
}

/// `s` without its leading whitespace.
pub open spec fn trim_start(s: Seq<char>) -> Seq<char>
    decreases s.len(),
{
    if s.len() > 0 && is_ws_spec(s[0]) {
        trim_start(s.drop_first())
    } else {
        s
    }
}

/// `s` without its trailing whitespace.
pub open spec fn trim_end(s: Seq<char>) -> Seq<char>
    decreases s.len(),
{
    if s.len() > 0 && is_ws_spec(s.last()) {
        trim_end(s.drop_last())
    } else {
        s
    }
}

/// `s` without leading and trailing whitespace, as `str::trim` gives it.
pub open spec fn trim(s: Seq<char>) -> Seq<char> {
    trim_end(trim_start(s))
}

/// Whether `c` is whitespace.
pub fn is_ws(c: char) -> (r: bool)
    ensures
        r == is_ws_spec(c),
{
    let v = c as u32;
    (0x9 <= v && v <= 0xD) || v == 0x20 || v == 0x85 || v == 0xA0 || v == 0x1680 || (0x2000
        <= v && v <= 0x200A) || v == 0x2028 || v == 0x2029 || v == 0x202F || v == 0x205F || v
        == 0x3000
}

/// The bounds of the trimmed part of `cs[lo..hi]`.
pub fn trim_bounds(cs: &Vec<char>, lo: usize, hi: usize) -> (r: (usize, usize))
    requires
        lo <= hi <= cs@.len(),
    ensures
        lo <= r.0 <= r.1 <= hi,
        cs@.subrange(r.0 as int, r.1 as int) == trim(cs@.subrange(lo as int, hi as int)),
{
    let mut a: usize = lo;
    while a < hi && is_ws(cs[a])
        invariant
            lo <= a <= hi <= cs@.len(),
            trim_start(cs@.subrange(lo as int, hi as int)) == trim_start(
                cs@.subrange(a as int, hi as int),
            ),
        decreases hi - a,
    {
        assert(cs@.subrange(a as int, hi as int).drop_first() =~= cs@.subrange(
            a as int + 1,
            hi as int,
        ));
        a = a + 1;
    }
    let mut b: usize = hi;
    while b > a && is_ws(cs[b - 1])
        invariant
            lo <= a <= b <= hi <= cs@.len(),
            trim_start(cs@.subrange(lo as int, hi as int)) == cs@.subrange(a as int, hi as int),
            trim_end(cs@.subrange(a as int, hi as int)) == trim_end(
                cs@.subrange(a as int, b as int),
            ),
        decreases b - a,
    {
        assert(cs@.subrange(a as int, b as int).drop_last() =~= cs@.subrange(
            a as int,
            b as int - 1,
        ));
        b = b - 1;
    }
    (a, b)
}

/// The characters of `s`, in order.
pub fn chars_of(s: &str) -> (r: Vec<char>)
    ensures
        r@ == s@,
{
    let mut out: Vec<char> = Vec::new();
    for c in it: s.chars()
        invariant
            out@ == it.history(),
    {
        out.push(c);
    }
    out
}

/// Relies on `String: FromIterator<char>`: the string holds the characters
/// in order.
#[verifier::external_body]
pub(crate) fn string_from_chars(cs: &[char]) -> (r: String)
    ensures
        r@ == cs@,
{
    cs.iter().collect()
}

} // verus!
