//! The field normalizer: cleaning of raw cell text, splitting of a leading
//! type-code token, splitting of an `id - name` compound, and the
//! caption-marker re-tagging of an id.

use vstd::prelude::*;
use crate::chars::{
    is_space, is_alnum, sp_space, sp_alnum, sp_not_dash, leading, trailing,
    lemma_leading_bound, lemma_leading_is, lemma_trailing_bound, lemma_trailing_is,
    chars_of, string_of, subvec, push_char, space_char, alnum_char,
};
use vstd::string::StringExecFns;

verus! {

/// `s` with every newline character removed.
pub open spec fn spec_strip_newlines(s: Seq<char>) -> Seq<char>
    decreases s.len(),
{
    if s.len() == 0 {
        Seq::empty()
    } else if s[0] == '\n' {
        spec_strip_newlines(s.drop_first())
    } else {
        seq![s[0]] + spec_strip_newlines(s.drop_first())
    }
}

/// `s` without its leading whitespace.
pub open spec fn spec_trim_front(s: Seq<char>) -> Seq<char> {
    s.skip(leading(s, sp_space()))
}

/// `s` without its trailing whitespace.
pub open spec fn spec_trim_back(s: Seq<char>) -> Seq<char> {
    s.take(s.len() - trailing(s, sp_space()))
}

/// `s` without leading and trailing whitespace.
pub open spec fn spec_trim(s: Seq<char>) -> Seq<char> {
    spec_trim_back(spec_trim_front(s))
}

/// The cleaning rule for raw cell text: drop embedded newlines, then trim.
pub open spec fn spec_clean(s: Seq<char>) -> Seq<char> {
    spec_trim(spec_strip_newlines(s))
}

/// The type-code rule: the longest leading run of ASCII letters and digits,
/// when it is a proper, non-empty prefix, is the type code; the remainder is
/// what follows it and its separating whitespace, trimmed. Otherwise the
/// type code is empty and the input passes through unchanged.
pub open spec fn spec_split_type_prefix(s: Seq<char>) -> (Seq<char>, Seq<char>) {
    let k = leading(s, sp_alnum());
    if k == 0 || k == s.len() {
        (Seq::empty(), s)
    } else {
        let j = k + leading(s.skip(k), sp_space());
        (s.take(k), spec_trim(s.skip(j)))
    }
}

/// The compound split rule: at the first `'-'`, both parts trimmed; with no
/// dash at all, both parts empty and the flag false.
pub open spec fn spec_split_id_name(s: Seq<char>) -> (Seq<char>, Seq<char>, bool) {
    let i = leading(s, sp_not_dash());
    if i == s.len() {
        (Seq::empty(), Seq::empty(), false)
    } else {
        (spec_trim(s.take(i)), spec_trim(s.skip(i + 1)), true)
    }
}

/// `n` occurs as a contiguous substring of `h`.
pub open spec fn spec_contains(h: Seq<char>, n: Seq<char>) -> bool {
    exists|i: int| 0 <= i && i + n.len() <= h.len() && #[trigger] h.subrange(i, i + n.len()) == n
}

/// The lower-case caption marker, `"(com legendas)"`.
pub open spec fn marker_lower() -> Seq<char> {
    seq!['(', 'c', 'o', 'm', ' ', 'l', 'e', 'g', 'e', 'n', 'd', 'a', 's', ')']
}

/// The capitalised caption marker, `"(Com legendas)"`.
pub open spec fn marker_upper() -> Seq<char> {
    seq!['(', 'C', 'o', 'm', ' ', 'l', 'e', 'g', 'e', 'n', 'd', 'a', 's', ')']
}

/// A name carries the caption annotation in one of its two literal forms.
pub open spec fn spec_has_marker(name: Seq<char>) -> bool {
    spec_contains(name, marker_lower()) || spec_contains(name, marker_upper())
}

/// The disambiguation rule: a captioned variant gets `'1'` prefixed to its id.
pub open spec fn spec_apply_caption_tag(id: Seq<char>, name: Seq<char>) -> Seq<char> {
    if spec_has_marker(name) {
        seq!['1'] + id
    } else {
        id
    }
}

/// Every character of `s` is whitespace.
pub open spec fn all_space(s: Seq<char>) -> bool {
    forall|k: int| 0 <= k < s.len() ==> is_space(s[k])
}

/// Removing newlines removes all of them and touches nothing else.
proof fn lemma_strip_no_newline(s: Seq<char>)
    ensures
        forall|k: int| 0 <= k < spec_strip_newlines(s).len() ==> spec_strip_newlines(s)[k] != '\n',
    decreases s.len(),
{
    if s.len() > 0 {
        lemma_strip_no_newline(s.drop_first());
        if s[0] != '\n' {
            assert forall|k: int| 0 <= k < spec_strip_newlines(s).len()
                implies spec_strip_newlines(s)[k] != '\n' by {
                if k > 0 {
                    assert(spec_strip_newlines(s)[k] == spec_strip_newlines(s.drop_first())[k - 1]);
                }
            }
        }
    }
}

/// A sequence without newlines is left alone by the newline strip.
proof fn lemma_strip_id(s: Seq<char>)
    requires
        forall|k: int| 0 <= k < s.len() ==> s[k] != '\n',
    ensures
        spec_strip_newlines(s) == s,
    decreases s.len(),
{
    if s.len() > 0 {
        assert forall|k: int| 0 <= k < s.drop_first().len() implies s.drop_first()[k] != '\n' by {
            assert(s.drop_first()[k] == s[k + 1]);
        }
        lemma_strip_id(s.drop_first());
        assert(seq![s[0]] + s.drop_first() =~= s);
    }
}

/// Appending one character to the input appends its strip to the output.
proof fn lemma_strip_snoc(s: Seq<char>, c: char)
    ensures
        spec_strip_newlines(s.push(c))
            == spec_strip_newlines(s) + (if c == '\n' { Seq::<char>::empty() } else { seq![c] }),
    decreases s.len(),
{
    let t = s.push(c);
    let x: Seq<char> = if c == '\n' { Seq::empty() } else { seq![c] };
    if s.len() == 0 {
        assert(t.len() == 1 && t[0] == c);
        assert(t.drop_first() =~= Seq::<char>::empty());
        assert(spec_strip_newlines(Seq::<char>::empty()) == Seq::<char>::empty());
        assert(spec_strip_newlines(s) == Seq::<char>::empty());
        if c != '\n' {
            assert(spec_strip_newlines(t) == seq![c] + Seq::<char>::empty());
            assert(seq![c] + Seq::<char>::empty() =~= seq![c]);
            assert(spec_strip_newlines(s) + seq![c] =~= seq![c]);
        } else {
            assert(spec_strip_newlines(t) == Seq::<char>::empty());
            assert(spec_strip_newlines(s) + x =~= Seq::<char>::empty());
        }
    } else {
        assert(t[0] == s[0]);
        assert(t.drop_first() =~= s.drop_first().push(c));
        lemma_strip_snoc(s.drop_first(), c);
        assert(spec_strip_newlines(t.drop_first()) == spec_strip_newlines(s.drop_first()) + x);
        if s[0] == '\n' {
            assert(spec_strip_newlines(t) == spec_strip_newlines(s.drop_first()) + x);
            assert(spec_strip_newlines(s) == spec_strip_newlines(s.drop_first()));
        } else {
            assert(spec_strip_newlines(t) == seq![s[0]] + (spec_strip_newlines(s.drop_first()) + x));
            assert(seq![s[0]] + (spec_strip_newlines(s.drop_first()) + x)
                =~= (seq![s[0]] + spec_strip_newlines(s.drop_first())) + x);
            assert(spec_strip_newlines(s) == seq![s[0]] + spec_strip_newlines(s.drop_first()));
        }
    }
}

/// Trimming a second time changes nothing.
proof fn lemma_trim_idempotent(x: Seq<char>)
    ensures
        spec_trim(spec_trim(x)) == spec_trim(x),
{
    let l = leading(x, sp_space());
    lemma_leading_bound(x, sp_space());
    let t1 = x.skip(l);
    let tr = trailing(t1, sp_space());
    lemma_trailing_bound(t1, sp_space());
    let c = t1.take(t1.len() - tr);
    assert(spec_trim(x) == c);
    if c.len() == 0 {
        assert(leading(c, sp_space()) == 0);
        assert(c.skip(0) =~= c);
        assert(trailing(c, sp_space()) == 0);
        assert(c.take(c.len() - 0) =~= c);
    } else {
        assert(l < x.len());
        assert(c[0] == x[l]);
        assert(!is_space(c[0]));
        lemma_leading_is(c, sp_space(), 0);
        assert(c.skip(0) =~= c);
        assert(tr < t1.len());
        assert(c.last() == t1[t1.len() - tr - 1]);
        assert(!is_space(c.last()));
        lemma_trailing_is(c, sp_space(), c.len() as int);
        assert(c.take(c.len() - 0) =~= c);
    }
}

/// Idempotence of cleaning: cleaning a second time changes nothing.
pub proof fn lemma_clean_idempotent(s: Seq<char>)
    ensures
        spec_clean(spec_clean(s)) == spec_clean(s),
{
    let x = spec_strip_newlines(s);
    let c = spec_clean(s);
    lemma_strip_no_newline(s);
    let l = leading(x, sp_space());
    lemma_leading_bound(x, sp_space());
    let t1 = x.skip(l);
    lemma_trailing_bound(t1, sp_space());
    assert(c == t1.take(t1.len() - trailing(t1, sp_space())));
    assert forall|k: int| 0 <= k < c.len() implies c[k] != '\n' by {
        assert(c[k] == x[l + k]);
    }
    lemma_strip_id(c);
    lemma_trim_idempotent(x);
}

/// Prefix round-trip: with an empty type code the remainder is the input
/// itself; with a non-empty type code `t` the input starts with `t`, `t` is
/// all letters and digits, and the input is exactly `t`, separating
/// whitespace, the remainder, and trailing whitespace, in that order.
pub proof fn lemma_prefix_round_trip(s: Seq<char>)
    ensures
        spec_split_type_prefix(s).0.len() == 0 ==> spec_split_type_prefix(s).1 == s,
        spec_split_type_prefix(s).0.len() > 0 ==> ({
            let t = spec_split_type_prefix(s).0;
            let r = spec_split_type_prefix(s).1;
            let k = leading(s, sp_alnum());
            let j = k + leading(s.skip(k), sp_space());
            let u = s.skip(j);
            let m = u.len() - trailing(u, sp_space());
            &&& t == s.take(k)
            &&& t.len() == k
            &&& forall|i: int| 0 <= i < t.len() ==> is_alnum(t[i])
            &&& k <= j <= s.len()
            &&& all_space(s.subrange(k, j))
            &&& r == u.take(m)
            &&& all_space(u.skip(m))
            &&& s == s.take(k) + s.subrange(k, j) + u.take(m) + u.skip(m)
        }),
{
    let k = leading(s, sp_alnum());
    lemma_leading_bound(s, sp_alnum());
    if k != 0 && k != s.len() {
        let t = s.take(k);
        assert forall|i: int| 0 <= i < t.len() implies is_alnum(t[i]) by {
            assert(t[i] == s[i]);
        }
        let w = leading(s.skip(k), sp_space());
        lemma_leading_bound(s.skip(k), sp_space());
        let j = k + w;
        assert forall|i: int| 0 <= i < s.subrange(k, j).len() implies is_space(s.subrange(k, j)[i]) by {
            assert(s.subrange(k, j)[i] == s.skip(k)[i]);
        }
        let u = s.skip(j);
        let tr = trailing(u, sp_space());
        lemma_trailing_bound(u, sp_space());
        let m = u.len() - tr;
        if j < s.len() {
            assert(u[0] == s.skip(k)[w]);
            assert(!is_space(u[0]));
            lemma_leading_is(u, sp_space(), 0);
            assert(u.skip(0) =~= u);
            assert(spec_split_type_prefix(s).1 == u.take(m));
        } else {
            assert(u =~= Seq::<char>::empty());
            assert(leading(u, sp_space()) == 0);
            assert(u.skip(0) =~= u);
            assert(spec_split_type_prefix(s).1 == u.take(m));
        }
        assert forall|i: int| 0 <= i < u.skip(m).len() implies is_space(u.skip(m)[i]) by {
            assert(u.skip(m)[i] == u[m + i]);
        }
        assert(s =~= s.take(k) + s.subrange(k, j) + u.take(m) + u.skip(m));
    }
}

/// Id/name split: the flag is true exactly when the input holds a dash; then
/// the input splits at its first dash, and id and name are the trimmed parts.
/// With no dash both parts are empty.
pub proof fn lemma_split_id_name(s: Seq<char>)
    ensures
        spec_split_id_name(s).2 <==> exists|k: int| 0 <= k < s.len() && s[k] == '-',
        !spec_split_id_name(s).2 ==> spec_split_id_name(s).0 == Seq::<char>::empty()
            && spec_split_id_name(s).1 == Seq::<char>::empty(),
        spec_split_id_name(s).2 ==> ({
            let i = leading(s, sp_not_dash());
            &&& 0 <= i < s.len()
            &&& s[i] == '-'
            &&& forall|k: int| 0 <= k < i ==> s[k] != '-'
            &&& s == s.take(i) + seq!['-'] + s.skip(i + 1)
            &&& spec_split_id_name(s).0 == spec_trim(s.take(i))
            &&& spec_split_id_name(s).1 == spec_trim(s.skip(i + 1))
        }),
{
    let i = leading(s, sp_not_dash());
    lemma_leading_bound(s, sp_not_dash());
    if i < s.len() {
        assert(s[i] == '-');
        assert(s =~= s.take(i) + seq!['-'] + s.skip(i + 1));
    } else {
        assert forall|k: int| 0 <= k < s.len() implies s[k] != '-' by {}
    }
}

/// Removes embedded newline characters and trims leading and trailing
/// whitespace; no other transformation.
pub fn clean(raw: &str) -> (r: String)
    ensures
        r@ == spec_clean(raw@),
{
    let v = chars_of(raw);
    let w = strip_newlines_vec(&v);
    let t = trim_vec(&w);
    string_of(&t)
}

/// [`spec_strip_newlines`], executably, over a character vector.
fn strip_newlines_vec(v: &Vec<char>) -> (r: Vec<char>)
    ensures
        r@ == spec_strip_newlines(v@),
{
    let mut r: Vec<char> = Vec::new();
    let mut i: usize = 0;
    while i < v.len()
        invariant
            i <= v@.len(),
            r@ == spec_strip_newlines(v@.take(i as int)),
        decreases v@.len() - i,
    {
        let c = v[i];
        proof {
            lemma_strip_snoc(v@.take(i as int), c);
            assert(v@.take(i + 1) =~= v@.take(i as int).push(c));
        }
        if c != '\n' {
            r.push(c);
            proof {
                assert(spec_strip_newlines(v@.take(i as int)) + seq![c]
                    =~= spec_strip_newlines(v@.take(i as int)).push(c));
            }
        } else {
            proof {
                assert(spec_strip_newlines(v@.take(i as int)) + Seq::<char>::empty()
                    =~= spec_strip_newlines(v@.take(i as int)));
            }
        }
        i += 1;
    }
    proof {
        assert(v@.take(v@.len() as int) =~= v@);
    }
    r
}

/// [`spec_trim`], executably, over a character vector.
fn trim_vec(v: &Vec<char>) -> (r: Vec<char>)
    ensures
        r@ == spec_trim(v@),
{
    let n = v.len();
    let mut lo: usize = 0;
    while lo < n && space_char(v[lo])
        invariant
            lo <= n == v@.len(),
            forall|k: int| 0 <= k < lo ==> is_space(v@[k]),
        decreases n - lo,
    {
        lo += 1;
    }
    proof {
        lemma_leading_is(v@, sp_space(), lo as int);
    }
    let mut hi: usize = n;
    while hi > lo && space_char(v[hi - 1])
        invariant
            lo <= hi <= n == v@.len(),
            forall|k: int| hi <= k < n ==> is_space(v@[k]),
        decreases hi,
    {
        hi -= 1;
    }
    let ghost t1 = v@.skip(lo as int);
    proof {
        assert(spec_trim_front(v@) == t1);
        assert forall|k: int| (hi - lo) <= k < t1.len() implies is_space(t1[k]) by {
            assert(t1[k] == v@[lo + k]);
        }
        if hi > lo {
            assert(t1[hi - lo - 1] == v@[hi - 1]);
        }
        lemma_trailing_is(t1, sp_space(), (hi - lo) as int);
        assert(t1.take(hi - lo) =~= v@.subrange(lo as int, hi as int));
    }
    subvec(v, lo, hi)
}

/// Splits the longest leading run of ASCII letters/digits, with its
/// following whitespace, off the front; returns the run and the trimmed
/// remainder, or an empty type code and the input unchanged when the run is
/// absent or spans the whole string.
pub fn split_type_prefix(s: &str) -> (r: (String, String))
    ensures
        r.0@ == spec_split_type_prefix(s@).0,
        r.1@ == spec_split_type_prefix(s@).1,
{
    let v = chars_of(s);
    let n = v.len();
    let mut k: usize = 0;
    while k < n && alnum_char(v[k])
        invariant
            k <= n == v@.len(),
            forall|m: int| 0 <= m < k ==> is_alnum(v@[m]),
        decreases n - k,
    {
        k += 1;
    }
    proof {
        lemma_leading_is(v@, sp_alnum(), k as int);
    }
    if k == 0 || k == n {
        let t = String::new();
        let rem = string_of(&v);
        (t, rem)
    } else {
        let mut j: usize = k;
        while j < n && space_char(v[j])
            invariant
                k <= j <= n == v@.len(),
                forall|m: int| k <= m < j ==> is_space(v@[m]),
            decreases n - j,
        {
            j += 1;
        }
        proof {
            assert forall|m: int| 0 <= m < j - k implies is_space(v@.skip(k as int)[m]) by {
                assert(v@.skip(k as int)[m] == v@[k + m]);
            }
            if j < n {
                assert(v@.skip(k as int)[j - k] == v@[j as int]);
            }
            lemma_leading_is(v@.skip(k as int), sp_space(), j - k);
        }
        let tv = subvec(&v, 0, k);
        let remv = subvec(&v, j, n);
        let remt = trim_vec(&remv);
        proof {
            assert(v@.subrange(0, k as int) =~= v@.take(k as int));
            assert(v@.subrange(j as int, n as int) =~= v@.skip(j as int));
        }
        (string_of(&tv), string_of(&remt))
    }
}

/// Splits on the first `'-'` into a trimmed id and a trimmed name; with no
/// dash present returns empty strings and false, the degrade-to-empty
/// policy of the pipeline.
pub fn split_id_name(s: &str) -> (r: (String, String, bool))
    ensures
        r.0@ == spec_split_id_name(s@).0,
        r.1@ == spec_split_id_name(s@).1,
        r.2 == spec_split_id_name(s@).2,
{
    let v = chars_of(s);
    let n = v.len();
    let mut i: usize = 0;
    while i < n && v[i] != '-'
        invariant
            i <= n == v@.len(),
            forall|m: int| 0 <= m < i ==> v@[m] != '-',
        decreases n - i,
    {
        i += 1;
    }
    proof {
        lemma_leading_is(v@, sp_not_dash(), i as int);
    }
    if i == n {
        (String::new(), String::new(), false)
    } else {
        let idv = subvec(&v, 0, i);
        let namev = subvec(&v, i + 1, n);
        let idt = trim_vec(&idv);
        let namet = trim_vec(&namev);
        proof {
            assert(v@.subrange(0, i as int) =~= v@.take(i as int));
            assert(v@.subrange(i + 1, n as int) =~= v@.skip(i + 1));
        }
        (string_of(&idt), string_of(&namet), true)
    }
}

/// Whether the window of `h` at `i` equals `n`.
fn window_eq(h: &Vec<char>, i: usize, n: &Vec<char>) -> (b: bool)
    requires
        i + n@.len() <= h@.len(),
    ensures
        b == (h@.subrange(i as int, i + n@.len()) == n@),
{
    let hn = h.len();
    let mut j: usize = 0;
    while j < n.len()
        invariant
            hn == h@.len(),
            i + n@.len() <= h@.len(),
            j <= n@.len(),
            forall|m: int| 0 <= m < j ==> h@[i + m] == n@[m],
        decreases n@.len() - j,
    {
        if h[i + j] != n[j] {
            proof {
                assert(h@.subrange(i as int, i + n@.len())[j as int] == h@[i + j]);
            }
            return false;
        }
        j += 1;
    }
    proof {
        assert(h@.subrange(i as int, i + n@.len()) =~= n@);
    }
    true
}

/// Whether `n` occurs as a contiguous substring of `h`.
fn contains_vec(h: &Vec<char>, n: &Vec<char>) -> (b: bool)
    ensures
        b == spec_contains(h@, n@),
{
    if n.len() > h.len() {
        proof {
            assert forall|i: int| !(0 <= i && i + n@.len() <= h@.len()
                && #[trigger] h@.subrange(i, i + n@.len()) == n@) by {}
        }
        return false;
    }
    if n.len() == 0 {
        proof {
            assert(h@.subrange(0, 0 + n@.len() as int) =~= n@);
        }
        return true;
    }
    let bound = h.len() - n.len();
    let mut i: usize = 0;
    while i <= bound
        invariant
            1 <= n@.len() <= h@.len(),
            h@.len() <= usize::MAX,
            bound == h@.len() - n@.len(),
            bound < h@.len(),
            i <= bound + 1,
            forall|m: int| 0 <= m < i ==> #[trigger] h@.subrange(m, m + n@.len()) != n@,
        decreases bound + 1 - i,
    {
        if window_eq(h, i, n) {
            proof {
                assert(h@.subrange(i as int, i + n@.len()) == n@);
            }
            return true;
        }
        i += 1;
    }
    proof {
        assert forall|m: int| !(0 <= m && m + n@.len() <= h@.len()
            && #[trigger] h@.subrange(m, m + n@.len()) == n@) by {
            if 0 <= m && m + n@.len() <= h@.len() {
                assert(m < i);
            }
        }
    }
    false
}

/// The lower-case caption marker as a character vector.
fn marker_lower_vec() -> (r: Vec<char>)
    ensures
        r@ == marker_lower(),
{
    let mut r: Vec<char> = Vec::new();
    r.push('(');
    r.push('c');
    r.push('o');
    r.push('m');
    r.push(' ');
    r.push('l');
    r.push('e');
    r.push('g');
    r.push('e');
    r.push('n');
    r.push('d');
    r.push('a');
    r.push('s');
    r.push(')');
    proof {
        assert(r@ =~= marker_lower());
    }
    r
}

/// The capitalised caption marker as a character vector.
fn marker_upper_vec() -> (r: Vec<char>)
    ensures
        r@ == marker_upper(),
{
    let mut r: Vec<char> = Vec::new();
    r.push('(');
    r.push('C');
    r.push('o');
    r.push('m');
    r.push(' ');
    r.push('l');
    r.push('e');
    r.push('g');
    r.push('e');
    r.push('n');
    r.push('d');
    r.push('a');
    r.push('s');
    r.push(')');
    proof {
        assert(r@ =~= marker_upper());
    }
    r
}

/// Whether `name` carries the caption annotation, in either literal form.
pub fn has_caption_marker(name: &str) -> (b: bool)
    ensures
        b == spec_has_marker(name@),
{
    let nv = chars_of(name);
    let ml = marker_lower_vec();
    let mu = marker_upper_vec();
    contains_vec(&nv, &ml) || contains_vec(&nv, &mu)
}

/// Prefixes `"1"` to `id` when `name` carries the caption annotation
/// (either of the two literal forms, case-sensitive); otherwise returns
/// `id` unchanged.
pub fn apply_caption_tag(id: &str, name: &str) -> (r: String)
    ensures
        r@ == spec_apply_caption_tag(id@, name@),
{
    if has_caption_marker(name) {
        let mut r = String::new();
        push_char(&mut r, '1');
        r.append(id);
        proof {
            assert(Seq::<char>::empty().push('1') + id@ =~= seq!['1'] + id@);
        }
        r
    } else {
        let mut r = String::new();
        r.append(id);
        proof {
            assert(Seq::<char>::empty() + id@ =~= id@);
        }
        r
    }
}

} // verus!
