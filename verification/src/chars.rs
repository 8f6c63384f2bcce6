//! Character classes and the sequence primitives the cell normalizer is
//! built on: leading and trailing runs of a character class, and the
//! conversions between `&str`/`String` and `Vec<char>` that the executable
//! code works over.

use vstd::prelude::*;
use vstd::string::StrSliceExecFns;

verus! {

/// Whitespace as the cleaning rules understand it: the ASCII blank characters.
pub open spec fn is_space(c: char) -> bool {
    c == ' ' || c == '\t' || c == '\n' || c == '\r'
}

/// ASCII letters and digits, the characters a type-code token is made of.
pub open spec fn is_alnum(c: char) -> bool {
    ('a' <= c && c <= 'z') || ('A' <= c && c <= 'Z') || ('0' <= c && c <= '9')
}

/// [`is_space`] as a first-class predicate, for the run primitives.
pub open spec fn sp_space() -> spec_fn(char) -> bool {
    |c: char| is_space(c)
}

/// [`is_alnum`] as a first-class predicate, for the run primitives.
pub open spec fn sp_alnum() -> spec_fn(char) -> bool {
    |c: char| is_alnum(c)
}

/// Holds of every character but `'-'`; a run of it ends at the first dash.
pub open spec fn sp_not_dash() -> spec_fn(char) -> bool {
    |c: char| c != '-'
}

/// Length of the longest prefix of `s` whose characters all satisfy `p`.
pub open spec fn leading(s: Seq<char>, p: spec_fn(char) -> bool) -> int
    decreases s.len(),
{
    if s.len() > 0 && p(s[0]) {
        1 + leading(s.drop_first(), p)
    } else {
        0
    }
}

/// Length of the longest suffix of `s` whose characters all satisfy `p`.
pub open spec fn trailing(s: Seq<char>, p: spec_fn(char) -> bool) -> int
    decreases s.len(),
{
    if s.len() > 0 && p(s.last()) {
        1 + trailing(s.drop_last(), p)
    } else {
        0
    }
}

/// `leading` is in bounds, its prefix satisfies `p`, and it is maximal.
pub proof fn lemma_leading_bound(s: Seq<char>, p: spec_fn(char) -> bool)
    ensures
        0 <= leading(s, p) <= s.len(),
        forall|k: int| 0 <= k < leading(s, p) ==> p(s[k]),
        leading(s, p) < s.len() ==> !p(s[leading(s, p)]),
    decreases s.len(),
{
    if s.len() > 0 && p(s[0]) {
        lemma_leading_bound(s.drop_first(), p);
        assert forall|k: int| 0 <= k < leading(s, p) implies p(s[k]) by {
            if k > 0 {
                assert(s.drop_first()[k - 1] == s[k]);
            }
        }
    }
}

/// Any index that marks the end of a `p`-run from the front is `leading`.
pub proof fn lemma_leading_is(s: Seq<char>, p: spec_fn(char) -> bool, i: int)
    requires
        0 <= i <= s.len(),
        forall|k: int| 0 <= k < i ==> p(s[k]),
        i < s.len() ==> !p(s[i]),
    ensures
        leading(s, p) == i,
    decreases s.len(),
{
    if s.len() > 0 && p(s[0]) {
        assert(i > 0);
        assert forall|k: int| 0 <= k < i - 1 implies p(s.drop_first()[k]) by {
            assert(s.drop_first()[k] == s[k + 1]);
        }
        assert(i - 1 < s.drop_first().len() ==> !p(s.drop_first()[i - 1]));
        lemma_leading_is(s.drop_first(), p, i - 1);
    } else {
        assert(i == 0);
    }
}

/// `trailing` is in bounds, its suffix satisfies `p`, and it is maximal.
pub proof fn lemma_trailing_bound(s: Seq<char>, p: spec_fn(char) -> bool)
    ensures
        0 <= trailing(s, p) <= s.len(),
        forall|k: int| s.len() - trailing(s, p) <= k < s.len() ==> p(s[k]),
        trailing(s, p) < s.len() ==> !p(s[s.len() - trailing(s, p) - 1]),
    decreases s.len(),
{
    if s.len() > 0 && p(s.last()) {
        lemma_trailing_bound(s.drop_last(), p);
        assert forall|k: int| s.len() - trailing(s, p) <= k < s.len() implies p(s[k]) by {
            if k < s.len() - 1 {
                assert(s.drop_last()[k] == s[k]);
            }
        }
    }
}

/// Any index that marks the start of a `p`-run to the end gives `trailing`.
pub proof fn lemma_trailing_is(s: Seq<char>, p: spec_fn(char) -> bool, j: int)
    requires
        0 <= j <= s.len(),
        forall|k: int| j <= k < s.len() ==> p(s[k]),
        j > 0 ==> !p(s[j - 1]),
    ensures
        trailing(s, p) == s.len() - j,
    decreases s.len(),
{
    if s.len() > 0 && p(s.last()) {
        assert(j < s.len());
        assert forall|k: int| j <= k < s.drop_last().len() implies p(s.drop_last()[k]) by {
            assert(s.drop_last()[k] == s[k]);
        }
        lemma_trailing_is(s.drop_last(), p, j);
    } else {
        if s.len() > 0 {
            assert(j == s.len());
        }
    }
}

/// Whether `c` is ASCII whitespace; mirrors [`is_space`].
pub fn space_char(c: char) -> (r: bool)
    ensures
        r == is_space(c),
{
    c == ' ' || c == '\t' || c == '\n' || c == '\r'
}

/// Whether `c` is an ASCII letter or digit; mirrors [`is_alnum`].
pub fn alnum_char(c: char) -> (r: bool)
    ensures
        r == is_alnum(c),
{
    ('a' <= c && c <= 'z') || ('A' <= c && c <= 'Z') || ('0' <= c && c <= '9')
}

/// The characters of `s`, in order, as a vector.
pub fn chars_of(s: &str) -> (r: Vec<char>)
    ensures
        r@ == s@,
{
    let n = s.unicode_len();
    let mut r: Vec<char> = Vec::new();
    let mut i: usize = 0;
    while i < n
        invariant
            n == s@.len(),
            i <= n,
            r@ == s@.take(i as int),
        decreases n - i,
    {
        let c = s.get_char(i);
        r.push(c);
        i += 1;
        assert(s@.take(i as int) =~= s@.take(i - 1).push(c));
    }
    assert(s@.take(n as int) =~= s@);
    r
}

/// Relies on `String::push` of std: appends exactly the one character.
#[verifier::external_body]
pub fn push_char(s: &mut String, c: char)
    ensures
        final(s)@ == old(s)@.push(c),
{
    s.push(c)
}

/// A string holding exactly the characters of `v`, in order.
pub fn string_of(v: &Vec<char>) -> (r: String)
    ensures
        r@ == v@,
{
    let mut r = String::new();
    let mut i: usize = 0;
    while i < v.len()
        invariant
            i <= v@.len(),
            r@ == v@.take(i as int),
        decreases v@.len() - i,
    {
        push_char(&mut r, v[i]);
        i += 1;
        assert(v@.take(i as int) =~= v@.take(i - 1).push(v@[i - 1]));
    }
    assert(v@.take(v@.len() as int) =~= v@);
    r
}

/// The contiguous piece of `v` from `from` (inclusive) to `to` (exclusive).
pub fn subvec(v: &Vec<char>, from: usize, to: usize) -> (r: Vec<char>)
    requires
        from <= to <= v@.len(),
    ensures
        r@ == v@.subrange(from as int, to as int),
{
    let mut r: Vec<char> = Vec::new();
    let mut i: usize = from;
    while i < to
        invariant
            from <= i <= to <= v@.len(),
            r@ == v@.subrange(from as int, i as int),
        decreases to - i,
    {
        r.push(v[i]);
        i += 1;
        assert(v@.subrange(from as int, i as int)
            =~= v@.subrange(from as int, i - 1).push(v@[i - 1]));
    }
    r
}

} // verus!
