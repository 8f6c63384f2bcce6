//! The catalog store's persisted form: a JSON array of objects with the
//! five string-valued keys `id`, `name`, `url`, `size`, `file_type`. Both
//! directions are verified, and parsing inverts encoding.

use vstd::prelude::*;
use crate::record::{Bulletin, BulletinV, catalog_view};
use crate::chars::{chars_of, string_of};

verus! {

/// JSON escaping of one character: quote and backslash get a backslash,
/// every other character stands for itself.
pub open spec fn esc_char(c: char) -> Seq<char> {
    if c == '"' || c == '\\' {
        seq!['\\', c]
    } else {
        seq![c]
    }
}

/// JSON escaping of a whole string value.
pub open spec fn esc(s: Seq<char>) -> Seq<char>
    decreases s.len(),
{
    if s.len() == 0 {
        Seq::empty()
    } else {
        esc_char(s[0]) + esc(s.drop_first())
    }
}

/// One `"key":"value"` object member, the value escaped.
pub open spec fn enc_field(key: Seq<char>, val: Seq<char>) -> Seq<char> {
    seq!['"'] + key + seq!['"', ':', '"'] + esc(val) + seq!['"']
}

/// The key `id`.
pub open spec fn key_id() -> Seq<char> {
    seq!['i', 'd']
}

/// The key `name`.
pub open spec fn key_name() -> Seq<char> {
    seq!['n', 'a', 'm', 'e']
}

/// The key `url`.
pub open spec fn key_url() -> Seq<char> {
    seq!['u', 'r', 'l']
}

/// The key `size`.
pub open spec fn key_size() -> Seq<char> {
    seq!['s', 'i', 'z', 'e']
}

/// The key `file_type`.
pub open spec fn key_file_type() -> Seq<char> {
    seq!['f', 'i', 'l', 'e', '_', 't', 'y', 'p', 'e']
}

/// One record as a JSON object, members in catalog order.
pub open spec fn enc_record(b: BulletinV) -> Seq<char> {
    seq!['{'] + enc_field(key_id(), b.id) + seq![','] + enc_field(key_name(), b.name) + seq![',']
        + enc_field(key_url(), b.url) + seq![','] + enc_field(key_size(), b.size) + seq![',']
        + enc_field(key_file_type(), b.file_type) + seq!['}']
}

/// The comma-separated record list, without the surrounding brackets.
pub open spec fn enc_list(bs: Seq<BulletinV>) -> Seq<char>
    decreases bs.len(),
{
    if bs.len() == 0 {
        Seq::empty()
    } else if bs.len() == 1 {
        enc_record(bs[0])
    } else {
        enc_record(bs[0]) + seq![','] + enc_list(bs.drop_first())
    }
}

/// A whole catalog as a JSON array.
pub open spec fn enc_catalog(bs: Seq<BulletinV>) -> Seq<char> {
    seq!['['] + enc_list(bs) + seq![']']
}

/// Escaping one more character appends that character's escape.
proof fn lemma_esc_snoc(s: Seq<char>, c: char)
    ensures
        esc(s.push(c)) == esc(s) + esc_char(c),
    decreases s.len(),
{
    let t = s.push(c);
    if s.len() == 0 {
        assert(t[0] == c);
        assert(t.drop_first() =~= Seq::<char>::empty());
        assert(esc(Seq::<char>::empty()) == Seq::<char>::empty());
        assert(esc(t) == esc_char(c) + Seq::<char>::empty());
        assert(esc_char(c) + Seq::<char>::empty() =~= esc_char(c));
        assert(esc(s) + esc_char(c) =~= esc_char(c));
    } else {
        assert(t[0] == s[0]);
        assert(t.drop_first() =~= s.drop_first().push(c));
        lemma_esc_snoc(s.drop_first(), c);
        assert(esc(t) == esc_char(s[0]) + (esc(s.drop_first()) + esc_char(c)));
        assert(esc_char(s[0]) + (esc(s.drop_first()) + esc_char(c)) =~= (esc_char(s[0]) + esc(
            s.drop_first(),
        )) + esc_char(c));
    }
}

/// Appending one record to the list appends its encoding, with a comma
/// separator when the list was not empty.
proof fn lemma_enc_list_snoc(bs: Seq<BulletinV>, b: BulletinV)
    ensures
        bs.len() == 0 ==> enc_list(bs.push(b)) == enc_record(b),
        bs.len() >= 1 ==> enc_list(bs.push(b)) == enc_list(bs) + seq![','] + enc_record(b),
    decreases bs.len(),
{
    let t = bs.push(b);
    if bs.len() == 0 {
        assert(t.len() == 1);
        assert(t[0] == b);
    } else {
        assert(t[0] == bs[0]);
        assert(t.drop_first() =~= bs.drop_first().push(b));
        lemma_enc_list_snoc(bs.drop_first(), b);
        if bs.len() == 1 {
            assert(enc_list(t) == enc_record(bs[0]) + seq![','] + enc_list(t.drop_first()));
            assert(enc_list(t.drop_first()) == enc_record(b));
            assert(enc_list(bs) == enc_record(bs[0]));
        } else {
            assert(enc_list(t) == enc_record(bs[0]) + seq![','] + (enc_list(bs.drop_first())
                + seq![','] + enc_record(b)));
            assert(enc_record(bs[0]) + seq![','] + (enc_list(bs.drop_first()) + seq![',']
                + enc_record(b)) =~= (enc_record(bs[0]) + seq![','] + enc_list(bs.drop_first()))
                + seq![','] + enc_record(b));
        }
    }
}

/// Parses the fixed text `lit` off the front of `s`.
pub open spec fn p_lit(s: Seq<char>, lit: Seq<char>) -> Option<Seq<char>> {
    if lit.len() <= s.len() && s.take(lit.len() as int) == lit {
        Option::Some(s.skip(lit.len() as int))
    } else {
        Option::None
    }
}

/// Parses the escaped body of a string value up to and over its closing
/// quote; yields the unescaped content and what follows the quote.
pub open spec fn p_chars(s: Seq<char>) -> Option<(Seq<char>, Seq<char>)>
    decreases s.len(),
{
    if s.len() == 0 {
        Option::None
    } else if s[0] == '"' {
        Option::Some((Seq::empty(), s.drop_first()))
    } else if s[0] == '\\' {
        if s.len() >= 2 && (s[1] == '"' || s[1] == '\\') {
            match p_chars(s.skip(2)) {
                Option::None => Option::None,
                Option::Some(cr) => Option::Some((seq![s[1]] + cr.0, cr.1)),
            }
        } else {
            Option::None
        }
    } else {
        match p_chars(s.drop_first()) {
            Option::None => Option::None,
            Option::Some(cr) => Option::Some((seq![s[0]] + cr.0, cr.1)),
        }
    }
}

/// Parses one `"key":"value"` member with the given fixed key.
pub open spec fn p_field(s: Seq<char>, key: Seq<char>) -> Option<(Seq<char>, Seq<char>)> {
    match p_lit(s, seq!['"'] + key + seq!['"', ':', '"']) {
        Option::None => Option::None,
        Option::Some(r) => p_chars(r),
    }
}

/// Parses one record object, members in catalog order.
pub open spec fn p_record(s: Seq<char>) -> Option<(BulletinV, Seq<char>)> {
    match p_lit(s, seq!['{']) {
        Option::None => Option::None,
        Option::Some(r0) => match p_field(r0, key_id()) {
            Option::None => Option::None,
            Option::Some((id, r1)) => match p_lit(r1, seq![',']) {
                Option::None => Option::None,
                Option::Some(r2) => match p_field(r2, key_name()) {
                    Option::None => Option::None,
                    Option::Some((name, r3)) => match p_lit(r3, seq![',']) {
                        Option::None => Option::None,
                        Option::Some(r4) => match p_field(r4, key_url()) {
                            Option::None => Option::None,
                            Option::Some((url, r5)) => match p_lit(r5, seq![',']) {
                                Option::None => Option::None,
                                Option::Some(r6) => match p_field(r6, key_size()) {
                                    Option::None => Option::None,
                                    Option::Some((size, r7)) => match p_lit(r7, seq![',']) {
                                        Option::None => Option::None,
                                        Option::Some(r8) => match p_field(r8, key_file_type()) {
                                            Option::None => Option::None,
                                            Option::Some((file_type, r9)) => match p_lit(
                                                r9,
                                                seq!['}'],
                                            ) {
                                                Option::None => Option::None,
                                                Option::Some(r10) => Option::Some(
                                                    (
                                                        BulletinV {
                                                            id,
                                                            name,
                                                            url,
                                                            size,
                                                            file_type,
                                                        },
                                                        r10,
                                                    ),
                                                ),
                                            },
                                        },
                                    },
                                },
                            },
                        },
                    },
                },
            },
        },
    }
}

/// Parses a non-empty, comma-separated run of record objects.
pub open spec fn p_records(s: Seq<char>) -> Option<(Seq<BulletinV>, Seq<char>)>
    decreases s.len(),
{
    match p_record(s) {
        Option::None => Option::None,
        Option::Some((b, r)) => if r.len() < s.len() && r.len() > 0 && r[0] == ',' {
            match p_records(r.drop_first()) {
                Option::None => Option::None,
                Option::Some((bs, r2)) => Option::Some((seq![b] + bs, r2)),
            }
        } else {
            Option::Some((seq![b], r))
        },
    }
}

/// Parses a whole catalog: the array brackets around the record run, with
/// nothing before or after them.
pub open spec fn p_catalog(s: Seq<char>) -> Option<Seq<BulletinV>> {
    if s.len() >= 1 && s[0] == '[' {
        if s.drop_first() == seq![']'] {
            Option::Some(Seq::empty())
        } else {
            match p_records(s.drop_first()) {
                Option::None => Option::None,
                Option::Some((bs, r)) => if r == seq![']'] {
                    Option::Some(bs)
                } else {
                    Option::None
                },
            }
        }
    } else {
        Option::None
    }
}

/// Parsing a fixed text off itself-plus-rest leaves exactly the rest.
proof fn lemma_p_lit(lit: Seq<char>, rest: Seq<char>)
    ensures
        p_lit(lit + rest, lit) == Option::Some(rest),
{
    let s = lit + rest;
    assert(s.take(lit.len() as int) =~= lit);
    assert(s.skip(lit.len() as int) =~= rest);
}

/// Parsing an escaped value body inverts the escape.
proof fn lemma_p_chars_esc(v: Seq<char>, rest: Seq<char>)
    ensures
        p_chars(esc(v) + seq!['"'] + rest) == Option::Some((v, rest)),
    decreases v.len(),
{
    let s = esc(v) + seq!['"'] + rest;
    if v.len() == 0 {
        assert(esc(v) == Seq::<char>::empty());
        assert(s =~= seq!['"'] + rest);
        assert(s[0] == '"');
        assert(s.drop_first() =~= rest);
        assert(v =~= Seq::<char>::empty());
    } else {
        let c = v[0];
        let v1 = v.drop_first();
        lemma_p_chars_esc(v1, rest);
        assert(esc(v) == esc_char(c) + esc(v1));
        if c == '"' || c == '\\' {
            assert(esc_char(c) == seq!['\\', c]);
            assert(s[0] == '\\');
            assert(s.len() >= 2);
            assert(s[1] == c);
            assert(s.skip(2) =~= esc(v1) + seq!['"'] + rest);
            assert(seq![c] + v1 =~= v);
        } else {
            assert(esc_char(c) == seq![c]);
            assert(s[0] == c);
            assert(s.drop_first() =~= esc(v1) + seq!['"'] + rest);
            assert(seq![c] + v1 =~= v);
        }
    }
}

/// Parsing an encoded member inverts the member encoding.
proof fn lemma_p_field(key: Seq<char>, val: Seq<char>, rest: Seq<char>)
    ensures
        p_field(enc_field(key, val) + rest, key) == Option::Some((val, rest)),
{
    let lit = seq!['"'] + key + seq!['"', ':', '"'];
    let tail = esc(val) + seq!['"'] + rest;
    assert(enc_field(key, val) + rest =~= lit + tail);
    lemma_p_lit(lit, tail);
    lemma_p_chars_esc(val, rest);
}

/// Parsing an encoded record inverts the record encoding.
#[verifier::rlimit(30)]
proof fn lemma_p_record(b: BulletinV, rest: Seq<char>)
    ensures
        p_record(enc_record(b) + rest) == Option::Some((b, rest)),
{
    let f1 = enc_field(key_id(), b.id);
    let f2 = enc_field(key_name(), b.name);
    let f3 = enc_field(key_url(), b.url);
    let f4 = enc_field(key_size(), b.size);
    let f5 = enc_field(key_file_type(), b.file_type);
    let u5 = seq!['}'] + rest;
    let s5 = f5 + u5;
    let u4 = seq![','] + s5;
    let s4 = f4 + u4;
    let u3 = seq![','] + s4;
    let s3 = f3 + u3;
    let u2 = seq![','] + s3;
    let s2 = f2 + u2;
    let u1 = seq![','] + s2;
    let s1 = f1 + u1;
    let s = seq!['{'] + s1;
    assert(enc_record(b) + rest =~= s);
    lemma_p_lit(seq!['{'], s1);
    lemma_p_field(key_id(), b.id, u1);
    lemma_p_lit(seq![','], s2);
    lemma_p_field(key_name(), b.name, u2);
    lemma_p_lit(seq![','], s3);
    lemma_p_field(key_url(), b.url, u3);
    lemma_p_lit(seq![','], s4);
    lemma_p_field(key_size(), b.size, u4);
    lemma_p_lit(seq![','], s5);
    lemma_p_field(key_file_type(), b.file_type, u5);
    lemma_p_lit(seq!['}'], rest);
    assert((BulletinV {
        id: b.id,
        name: b.name,
        url: b.url,
        size: b.size,
        file_type: b.file_type,
    }) =~= b);
}

/// Parsing an encoded record run, closed by the array bracket, yields
/// exactly the records.
proof fn lemma_p_records_enc(bs: Seq<BulletinV>)
    requires
        bs.len() >= 1,
    ensures
        p_records(enc_list(bs) + seq![']']) == Option::Some((bs, seq![']'])),
    decreases bs.len(),
{
    let s = enc_list(bs) + seq![']'];
    if bs.len() == 1 {
        assert(enc_list(bs) == enc_record(bs[0]));
        lemma_p_record(bs[0], seq![']']);
        let r = seq![']'];
        assert(r[0] == ']');
        assert(seq![bs[0]] =~= bs);
    } else {
        let bs1 = bs.drop_first();
        let tail = seq![','] + (enc_list(bs1) + seq![']']);
        assert(enc_list(bs) == enc_record(bs[0]) + seq![','] + enc_list(bs1));
        assert(s =~= enc_record(bs[0]) + tail);
        lemma_p_record(bs[0], tail);
        assert(tail[0] == ',');
        assert(enc_record(bs[0]).len() >= 1);
        assert(tail.len() < s.len());
        assert(tail.drop_first() =~= enc_list(bs1) + seq![']']);
        lemma_p_records_enc(bs1);
        assert(seq![bs[0]] + bs1 =~= bs);
    }
}

/// Catalog round-trip: parsing the encoding of any catalog yields exactly
/// that catalog.
pub proof fn lemma_catalog_round_trip(bs: Seq<BulletinV>)
    ensures
        p_catalog(enc_catalog(bs)) == Option::Some(bs),
{
    let s = enc_catalog(bs);
    assert(s[0] == '[');
    let t = s.drop_first();
    assert(t =~= enc_list(bs) + seq![']']);
    if bs.len() == 0 {
        assert(enc_list(bs) == Seq::<char>::empty());
        assert(t =~= seq![']']);
        assert(bs =~= Seq::<BulletinV>::empty());
    } else {
        lemma_p_records_enc(bs);
        assert(enc_record(bs[0]).len() >= 1);
        assert(enc_list(bs).len() >= 1);
        assert(t.len() >= 2);
        assert(t != seq![']']);
    }
}

/// `out` extended by a copy of `add`.
fn extend_chars(out: Vec<char>, add: &Vec<char>) -> (r: Vec<char>)
    ensures
        r@ == out@ + add@,
{
    let mut r = out;
    let ghost base = r@;
    let mut i: usize = 0;
    while i < add.len()
        invariant
            i <= add@.len(),
            r@ == base + add@.take(i as int),
        decreases add@.len() - i,
    {
        r.push(add[i]);
        i += 1;
        proof {
            assert(base + add@.take(i as int) =~= (base + add@.take(i - 1)).push(add@[i - 1]));
        }
    }
    proof {
        assert(base + add@.take(add@.len() as int) =~= base + add@);
    }
    r
}

/// The escape of `v`, as a vector.
fn esc_vec(v: &Vec<char>) -> (r: Vec<char>)
    ensures
        r@ == esc(v@),
{
    let mut r: Vec<char> = Vec::new();
    let mut i: usize = 0;
    while i < v.len()
        invariant
            i <= v@.len(),
            r@ == esc(v@.take(i as int)),
        decreases v@.len() - i,
    {
        let c = v[i];
        proof {
            lemma_esc_snoc(v@.take(i as int), c);
            assert(v@.take(i + 1) =~= v@.take(i as int).push(c));
        }
        if c == '"' || c == '\\' {
            r.push('\\');
            r.push(c);
            proof {
                assert(esc(v@.take(i as int)) + esc_char(c) =~= esc(
                    v@.take(i as int),
                ).push('\\').push(c));
            }
        } else {
            r.push(c);
            proof {
                assert(esc(v@.take(i as int)) + esc_char(c) =~= esc(v@.take(i as int)).push(c));
            }
        }
        i += 1;
    }
    proof {
        assert(v@.take(v@.len() as int) =~= v@);
    }
    r
}

/// One encoded object member, as a vector.
fn field_vec(key: &Vec<char>, val: &Vec<char>) -> (r: Vec<char>)
    ensures
        r@ == enc_field(key@, val@),
{
    let mut out: Vec<char> = Vec::new();
    out.push('"');
    let mut out = extend_chars(out, key);
    out.push('"');
    out.push(':');
    out.push('"');
    let ev = esc_vec(val);
    let mut out = extend_chars(out, &ev);
    out.push('"');
    proof {
        assert(out@ =~= enc_field(key@, val@));
    }
    out
}

/// The key `id`, as a vector.
fn key_id_vec() -> (r: Vec<char>)
    ensures
        r@ == key_id(),
{
    let mut r: Vec<char> = Vec::new();
    r.push('i');
    r.push('d');
    proof {
        assert(r@ =~= key_id());
    }
    r
}

/// The key `name`, as a vector.
fn key_name_vec() -> (r: Vec<char>)
    ensures
        r@ == key_name(),
{
    let mut r: Vec<char> = Vec::new();
    r.push('n');
    r.push('a');
    r.push('m');
    r.push('e');
    proof {
        assert(r@ =~= key_name());
    }
    r
}

/// The key `url`, as a vector.
fn key_url_vec() -> (r: Vec<char>)
    ensures
        r@ == key_url(),
{
    let mut r: Vec<char> = Vec::new();
    r.push('u');
    r.push('r');
    r.push('l');
    proof {
        assert(r@ =~= key_url());
    }
    r
}

/// The key `size`, as a vector.
fn key_size_vec() -> (r: Vec<char>)
    ensures
        r@ == key_size(),
{
    let mut r: Vec<char> = Vec::new();
    r.push('s');
    r.push('i');
    r.push('z');
    r.push('e');
    proof {
        assert(r@ =~= key_size());
    }
    r
}

/// The key `file_type`, as a vector.
fn key_file_type_vec() -> (r: Vec<char>)
    ensures
        r@ == key_file_type(),
{
    let mut r: Vec<char> = Vec::new();
    r.push('f');
    r.push('i');
    r.push('l');
    r.push('e');
    r.push('_');
    r.push('t');
    r.push('y');
    r.push('p');
    r.push('e');
    proof {
        assert(r@ =~= key_file_type());
    }
    r
}

/// One encoded record, as a vector.
#[verifier::rlimit(30)]
fn record_vec(b: &Bulletin) -> (r: Vec<char>)
    ensures
        r@ == enc_record(b@),
{
    let mut out: Vec<char> = Vec::new();
    out.push('{');
    let ki = key_id_vec();
    let vi = chars_of(b.id.as_str());
    let fi = field_vec(&ki, &vi);
    let mut out = extend_chars(out, &fi);
    out.push(',');
    let kn = key_name_vec();
    let vn = chars_of(b.name.as_str());
    let fn_ = field_vec(&kn, &vn);
    let mut out = extend_chars(out, &fn_);
    out.push(',');
    let ku = key_url_vec();
    let vu = chars_of(b.url.as_str());
    let fu = field_vec(&ku, &vu);
    let mut out = extend_chars(out, &fu);
    out.push(',');
    let ks = key_size_vec();
    let vs = chars_of(b.size.as_str());
    let fs = field_vec(&ks, &vs);
    let mut out = extend_chars(out, &fs);
    out.push(',');
    let kt = key_file_type_vec();
    let vt = chars_of(b.file_type.as_str());
    let ft = field_vec(&kt, &vt);
    let mut out = extend_chars(out, &ft);
    out.push('}');
    proof {
        assert(out@ =~= enc_record(b@));
    }
    out
}

/// A one-character vector.
fn single_vec(c: char) -> (r: Vec<char>)
    ensures
        r@ == seq![c],
{
    let mut r: Vec<char> = Vec::new();
    r.push(c);
    proof {
        assert(r@ =~= seq![c]);
    }
    r
}

/// The opening text of a member with the given key, `"key":"`.
fn open_lit_vec(key: &Vec<char>) -> (r: Vec<char>)
    ensures
        r@ == seq!['"'] + key@ + seq!['"', ':', '"'],
{
    let mut out: Vec<char> = Vec::new();
    out.push('"');
    let mut out = extend_chars(out, key);
    out.push('"');
    out.push(':');
    out.push('"');
    proof {
        assert(out@ =~= seq!['"'] + key@ + seq!['"', ':', '"']);
    }
    out
}

/// Consumes `lit` at position `i` of `v`, mirroring [`p_lit`] on the
/// suffix; yields the position just past it.
fn eat_lit(v: &Vec<char>, i: usize, lit: &Vec<char>) -> (r: Option<usize>)
    requires
        i <= v@.len(),
    ensures
        match r {
            Option::Some(j) => i <= j <= v@.len() && j - i == lit@.len() && p_lit(
                v@.skip(i as int),
                lit@,
            ) == Option::Some(v@.skip(j as int)),
            Option::None => p_lit(v@.skip(i as int), lit@) is None,
        },
{
    let n = v.len();
    if n - i < lit.len() {
        proof {
            assert(v@.skip(i as int).len() == n - i);
        }
        return None;
    }
    let mut j: usize = 0;
    while j < lit.len()
        invariant
            i + lit@.len() <= n == v@.len(),
            j <= lit@.len(),
            forall|m: int| 0 <= m < j ==> v@[i + m] == lit@[m],
        decreases lit@.len() - j,
    {
        if v[i + j] != lit[j] {
            proof {
                let s = v@.skip(i as int);
                if lit@.len() <= s.len() && s.take(lit@.len() as int) == lit@ {
                    assert(s.take(lit@.len() as int)[j as int] == v@[i + j]);
                }
            }
            return None;
        }
        j += 1;
    }
    proof {
        let s = v@.skip(i as int);
        assert(s.take(lit@.len() as int) =~= lit@);
        assert(s.skip(lit@.len() as int) =~= v@.skip(i + lit@.len()));
    }
    Some(i + lit.len())
}

/// A parse outcome with `pre` prepended to its content.
pub open spec fn prepend_parsed(pre: Seq<char>, o: Option<(Seq<char>, Seq<char>)>) -> Option<
    (Seq<char>, Seq<char>),
> {
    match o {
        Option::None => Option::None,
        Option::Some(cr) => Option::Some((pre + cr.0, cr.1)),
    }
}

/// Prepending twice is prepending the concatenation.
proof fn lemma_prepend_assoc(a: Seq<char>, b: Seq<char>, o: Option<(Seq<char>, Seq<char>)>)
    ensures
        prepend_parsed(a, prepend_parsed(b, o)) == prepend_parsed(a + b, o),
{
    match o {
        Option::None => {},
        Option::Some(cr) => {
            assert(a + (b + cr.0) =~= (a + b) + cr.0);
        },
    }
}

/// Scans a string value's escaped body from position `start`, mirroring
/// [`p_chars`] on the suffix; yields the unescaped content and the
/// position just past the closing quote.
fn scan_string(v: &Vec<char>, start: usize) -> (r: Option<(Vec<char>, usize)>)
    requires
        start <= v@.len(),
    ensures
        match r {
            Option::Some(cj) => start < cj.1 <= v@.len() && p_chars(v@.skip(start as int))
                == Option::Some((cj.0@, v@.skip(cj.1 as int))),
            Option::None => p_chars(v@.skip(start as int)) is None,
        },
{
    let n = v.len();
    let mut out: Vec<char> = Vec::new();
    let mut i: usize = start;
    loop
        invariant
            start <= i <= n == v@.len(),
            p_chars(v@.skip(start as int)) == prepend_parsed(out@, p_chars(v@.skip(i as int))),
        decreases n - i,
    {
        if i >= n {
            proof {
                assert(v@.skip(i as int).len() == 0);
            }
            return None;
        }
        let c = v[i];
        let ghost s = v@.skip(i as int);
        proof {
            assert(s[0] == c);
            assert(s.drop_first() =~= v@.skip(i + 1));
        }
        if c == '"' {
            proof {
                assert(p_chars(s) == Option::Some((Seq::<char>::empty(), v@.skip(i + 1))));
                assert(out@ + Seq::<char>::empty() =~= out@);
            }
            return Some((out, i + 1));
        } else if c == '\\' {
            if i + 1 < n {
                let c2 = v[i + 1];
                if c2 == '"' || c2 == '\\' {
                    proof {
                        assert(s.len() >= 2 && s[1] == c2);
                        assert(s.skip(2) =~= v@.skip(i + 2));
                        assert(p_chars(s) == prepend_parsed(seq![c2], p_chars(v@.skip(i + 2))));
                        lemma_prepend_assoc(out@, seq![c2], p_chars(v@.skip(i + 2)));
                        assert(out@ + seq![c2] =~= out@.push(c2));
                    }
                    out.push(c2);
                    i += 2;
                } else {
                    proof {
                        assert(s.len() >= 2 && s[1] == c2);
                        assert(p_chars(s) is None);
                    }
                    return None;
                }
            } else {
                proof {
                    assert(s.len() == 1);
                    assert(p_chars(s) is None);
                }
                return None;
            }
        } else {
            proof {
                assert(p_chars(s) == prepend_parsed(seq![c], p_chars(v@.skip(i + 1))));
                lemma_prepend_assoc(out@, seq![c], p_chars(v@.skip(i + 1)));
                assert(out@ + seq![c] =~= out@.push(c));
            }
            out.push(c);
            i += 1;
        }
    }
}

/// Parses one member with the given key at position `i`, mirroring
/// [`p_field`] on the suffix.
fn parse_field_at(v: &Vec<char>, i: usize, key: &Vec<char>) -> (r: Option<(Vec<char>, usize)>)
    requires
        i <= v@.len(),
    ensures
        match r {
            Option::Some(cj) => i < cj.1 <= v@.len() && p_field(v@.skip(i as int), key@)
                == Option::Some((cj.0@, v@.skip(cj.1 as int))),
            Option::None => p_field(v@.skip(i as int), key@) is None,
        },
{
    let lit = open_lit_vec(key);
    match eat_lit(v, i, &lit) {
        None => None,
        Some(j0) => {
            match scan_string(v, j0) {
                None => None,
                Some((val, j)) => Some((val, j)),
            }
        },
    }
}

/// Parses one record object at position `i`, mirroring [`p_record`] on the
/// suffix.
fn parse_record_at(v: &Vec<char>, i: usize) -> (r: Option<(Bulletin, usize)>)
    requires
        i <= v@.len(),
    ensures
        match r {
            Option::Some(bj) => i < bj.1 <= v@.len() && p_record(v@.skip(i as int))
                == Option::Some((bj.0@, v@.skip(bj.1 as int))),
            Option::None => p_record(v@.skip(i as int)) is None,
        },
{
    let lbrace = single_vec('{');
    let comma = single_vec(',');
    let rbrace = single_vec('}');
    let j0 = match eat_lit(v, i, &lbrace) {
        None => {
            return None;
        },
        Some(j) => j,
    };
    let ki = key_id_vec();
    let (id, j1) = match parse_field_at(v, j0, &ki) {
        None => {
            return None;
        },
        Some(x) => x,
    };
    let j2 = match eat_lit(v, j1, &comma) {
        None => {
            return None;
        },
        Some(j) => j,
    };
    let kn = key_name_vec();
    let (name, j3) = match parse_field_at(v, j2, &kn) {
        None => {
            return None;
        },
        Some(x) => x,
    };
    let j4 = match eat_lit(v, j3, &comma) {
        None => {
            return None;
        },
        Some(j) => j,
    };
    let ku = key_url_vec();
    let (url, j5) = match parse_field_at(v, j4, &ku) {
        None => {
            return None;
        },
        Some(x) => x,
    };
    let j6 = match eat_lit(v, j5, &comma) {
        None => {
            return None;
        },
        Some(j) => j,
    };
    let ks = key_size_vec();
    let (size, j7) = match parse_field_at(v, j6, &ks) {
        None => {
            return None;
        },
        Some(x) => x,
    };
    let j8 = match eat_lit(v, j7, &comma) {
        None => {
            return None;
        },
        Some(j) => j,
    };
    let kt = key_file_type_vec();
    let (file_type, j9) = match parse_field_at(v, j8, &kt) {
        None => {
            return None;
        },
        Some(x) => x,
    };
    let j10 = match eat_lit(v, j9, &rbrace) {
        None => {
            return None;
        },
        Some(j) => j,
    };
    let b = Bulletin {
        id: string_of(&id),
        name: string_of(&name),
        url: string_of(&url),
        size: string_of(&size),
        file_type: string_of(&file_type),
    };
    proof {
        assert(b@ =~= BulletinV {
            id: id@,
            name: name@,
            url: url@,
            size: size@,
            file_type: file_type@,
        });
    }
    Some((b, j10))
}

/// Parses a comma-separated run of records from position `i`, mirroring
/// [`p_records`] on the suffix.
fn parse_records_at(v: &Vec<char>, i: usize) -> (r: Option<(Vec<Bulletin>, usize)>)
    requires
        i <= v@.len(),
    ensures
        match r {
            Option::Some(bj) => i < bj.1 <= v@.len() && p_records(v@.skip(i as int))
                == Option::Some((catalog_view(bj.0@), v@.skip(bj.1 as int))),
            Option::None => p_records(v@.skip(i as int)) is None,
        },
{
    let n = v.len();
    let mut acc: Vec<Bulletin> = Vec::new();
    let mut cur: usize = i;
    loop
        invariant
            i <= cur <= n == v@.len(),
            acc@.len() > 0 ==> i < cur,
            (match p_records(v@.skip(cur as int)) {
                Option::None => p_records(v@.skip(i as int)) is None,
                Option::Some(br) => p_records(v@.skip(i as int)) == Option::Some(
                    (catalog_view(acc@) + br.0, br.1),
                ),
            }),
        decreases n - cur,
    {
        let parsed = parse_record_at(v, cur);
        match parsed {
            None => {
                proof {
                    assert(p_records(v@.skip(cur as int)) is None);
                }
                return None;
            },
            Some((b, j)) => {
                let ghost scur = v@.skip(cur as int);
                let ghost sj = v@.skip(j as int);
                if j < n && v[j] == ',' {
                    proof {
                        assert(sj.len() > 0 && sj[0] == ',');
                        assert(sj.len() < scur.len());
                        assert(sj.drop_first() =~= v@.skip(j + 1));
                        assert(p_records(scur) == (match p_records(v@.skip(j + 1)) {
                            Option::None => Option::None::<(Seq<BulletinV>, Seq<char>)>,
                            Option::Some(br) => Option::Some((seq![b@] + br.0, br.1)),
                        }));
                        assert(catalog_view(acc@.push(b)) =~= catalog_view(acc@).push(b@));
                        if p_records(v@.skip(j + 1)) is Some {
                            let br = p_records(v@.skip(j + 1))->Some_0;
                            assert(catalog_view(acc@) + (seq![b@] + br.0) =~= (catalog_view(acc@)
                                + seq![b@]) + br.0);
                            assert(catalog_view(acc@) + seq![b@] =~= catalog_view(acc@).push(b@));
                        }
                    }
                    acc.push(b);
                    cur = j + 1;
                } else {
                    proof {
                        if j < n {
                            assert(sj.len() > 0 && sj[0] != ',');
                        } else {
                            assert(sj.len() == 0);
                        }
                        assert(p_records(scur) == Option::Some((seq![b@], sj)));
                        assert(catalog_view(acc@.push(b)) =~= catalog_view(acc@).push(b@));
                        assert(catalog_view(acc@) + seq![b@] =~= catalog_view(acc@).push(b@));
                    }
                    acc.push(b);
                    return Some((acc, j));
                }
            },
        }
    }
}

/// Parses catalog JSON text back into records; `None` on any text the
/// encoder cannot have produced.
pub fn deserialize(s: &str) -> (r: Option<Vec<Bulletin>>)
    ensures
        match r {
            Option::Some(bs) => p_catalog(s@) == Option::Some(catalog_view(bs@)),
            Option::None => p_catalog(s@) is None,
        },
{
    let v = chars_of(s);
    let n = v.len();
    if n == 0 || v[0] != '[' {
        return None;
    }
    proof {
        assert(v@.drop_first() =~= v@.skip(1));
    }
    if n == 2 && v[1] == ']' {
        proof {
            assert(v@.skip(1) =~= seq![']']);
            assert(catalog_view(Seq::<Bulletin>::empty()) =~= Seq::<BulletinV>::empty());
        }
        let empty: Vec<Bulletin> = Vec::new();
        return Some(empty);
    }
    proof {
        if v@.skip(1) == seq![']'] {
            assert(v@.len() == 2);
            assert(v@.skip(1)[0] == v@[1]);
            assert(false);
        }
    }
    match parse_records_at(&v, 1) {
        None => None,
        Some((bs, j)) => {
            if j == n - 1 && v[j] == ']' {
                proof {
                    assert(v@.skip(j as int) =~= seq![']']);
                }
                Some(bs)
            } else {
                proof {
                    if v@.skip(j as int) == seq![']'] {
                        assert(v@.skip(j as int).len() == 1);
                        assert(j + 1 == n);
                        assert(v@.skip(j as int)[0] == v@[j as int]);
                        assert(false);
                    }
                }
                None
            }
        },
    }
}

/// Serializes a catalog to its JSON text: the full replacement contents of
/// the catalog file.
pub fn serialize(records: &Vec<Bulletin>) -> (r: String)
    ensures
        r@ == enc_catalog(catalog_view(records@)),
{
    let ghost cv = catalog_view(records@);
    let mut out: Vec<char> = Vec::new();
    out.push('[');
    let mut i: usize = 0;
    while i < records.len()
        invariant
            i <= records@.len(),
            cv == catalog_view(records@),
            cv.len() == records@.len(),
            out@ == seq!['['] + enc_list(cv.take(i as int)),
        decreases records@.len() - i,
    {
        proof {
            lemma_enc_list_snoc(cv.take(i as int), cv[i as int]);
            assert(cv.take(i + 1) =~= cv.take(i as int).push(cv[i as int]));
        }
        if i > 0 {
            out.push(',');
        }
        let rv = record_vec(&records[i]);
        proof {
            assert(rv@ == enc_record(cv[i as int]));
        }
        let new_out = extend_chars(out, &rv);
        out = new_out;
        proof {
            if i > 0 {
                assert((seq!['['] + enc_list(cv.take(i as int))).push(',') + enc_record(
                    cv[i as int],
                ) =~= seq!['['] + (enc_list(cv.take(i as int)) + seq![','] + enc_record(
                    cv[i as int],
                )));
            } else {
                assert(cv.take(0int) =~= Seq::<BulletinV>::empty());
                assert((seq!['['] + enc_list(cv.take(0int))) + enc_record(cv[0int]) =~= seq!['[']
                    + enc_record(cv[0int]));
            }
        }
        i += 1;
    }
    out.push(']');
    proof {
        assert(cv.take(cv.len() as int) =~= cv);
        assert((seq!['['] + enc_list(cv)).push(']') =~= enc_catalog(cv));
    }
    string_of(&out)
}

} // verus!
