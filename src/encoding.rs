//! Byte-level encodings used by the audit ledger: decimal numbers, lower-case
//! hexadecimal, and the canonical input of a change hash.

use vstd::prelude::*;
use vstd::utf8::{encode_utf8, encode_utf8_decode_utf8};

verus! {

/// The ASCII decimal digits of `n`, most significant first, without leading zeros.
pub open spec fn decimal(n: nat) -> Seq<u8>
    decreases n,
{
    if n < 10 {
        seq![(48 + n) as u8]
    } else {
        decimal(n / 10) + seq![(48 + n % 10) as u8]
    }
}

/// The ASCII decimal form of an integer, with a leading `-` when negative.
pub open spec fn signed_decimal(i: int) -> Seq<u8> {
    if i < 0 {
        seq![45u8] + decimal((-i) as nat)
    } else {
        decimal(i as nat)
    }
}

/// The decimal form of an optional number; an absent number is empty.
pub open spec fn optional_decimal(v: Option<i32>) -> Seq<u8> {
    match v {
        Some(x) => signed_decimal(x as int),
        None => Seq::empty(),
    }
}

/// The UTF-8 bytes of an optional text; an absent text is empty.
pub open spec fn optional_text(v: Option<Seq<char>>) -> Seq<u8> {
    match v {
        Some(t) => encode_utf8(t),
        None => Seq::empty(),
    }
}

/// The field delimiter of a change-hash input, `|`.
pub open spec fn delimiter() -> Seq<u8> {
    seq![124u8]
}

/// The bytes whose digest is an audit entry's change hash: rating id, domain,
/// user, trust level, bias level and comment, in that order, separated by `|`.
pub open spec fn change_input(
    rating_id: i64,
    domain_url: Seq<char>,
    user_hash: Seq<char>,
    trust_level: Option<i32>,
    bias_level: Option<i32>,
    comment: Option<Seq<char>>,
) -> Seq<u8> {
    signed_decimal(rating_id as int) + delimiter() + encode_utf8(domain_url) + delimiter()
        + encode_utf8(user_hash) + delimiter() + optional_decimal(trust_level) + delimiter()
        + optional_decimal(bias_level) + delimiter() + optional_text(comment)
}

/// The lower-case hexadecimal digit of a nibble.
pub open spec fn hex_digit(n: u8) -> char {
    if n < 10 {
        (48 + n) as char
    } else {
        (87 + n) as char
    }
}

/// Two lower-case hexadecimal digits per byte, the high nibble first.
pub open spec fn hex_lower(b: Seq<u8>) -> Seq<char>
    decreases b.len(),
{
    if b.len() == 0 {
        Seq::empty()
    } else {
        hex_lower(b.drop_last()) + seq![hex_digit(b.last() / 16), hex_digit(b.last() % 16)]
    }
}

proof fn lemma_decimal_shape(n: nat)
    ensures
        decimal(n).len() >= 1,
        n < 10 ==> decimal(n).len() == 1,
        n >= 10 ==> decimal(n).len() >= 2,
        48 <= decimal(n)[0] <= 57,
    decreases n,
{
    if n >= 10 {
        lemma_decimal_shape(n / 10);
        assert(decimal(n)[0] == decimal(n / 10)[0]);
    }
}

/// Different numbers have different decimal digits.
pub proof fn lemma_decimal_injective(m: nat, n: nat)
    requires
        decimal(m) == decimal(n),
    ensures
        m == n,
    decreases m,
{
    lemma_decimal_shape(m);
    lemma_decimal_shape(n);
    if m >= 10 && n >= 10 {
        let dm = decimal(m);
        let dn = decimal(n);
        assert(dm.last() == (48 + m % 10) as u8);
        assert(dn.last() == (48 + n % 10) as u8);
        assert(decimal(m / 10) =~= dm.drop_last());
        assert(decimal(n / 10) =~= dn.drop_last());
        lemma_decimal_injective(m / 10, n / 10);
    } else if m < 10 && n < 10 {
        assert(decimal(m)[0] == (48 + m) as u8);
        assert(decimal(n)[0] == (48 + n) as u8);
    }
}

/// Different integers have different signed decimal forms, and none is empty.
pub proof fn lemma_signed_decimal_injective(a: int, b: int)
    ensures
        signed_decimal(a).len() > 0,
        signed_decimal(a) == signed_decimal(b) ==> a == b,
{
    lemma_decimal_shape(if a < 0 { (-a) as nat } else { a as nat });
    lemma_decimal_shape(if b < 0 { (-b) as nat } else { b as nat });
    if signed_decimal(a) == signed_decimal(b) {
        if a < 0 && b < 0 {
            assert(decimal((-a) as nat) =~= signed_decimal(a).drop_first());
            assert(decimal((-b) as nat) =~= signed_decimal(b).drop_first());
            lemma_decimal_injective((-a) as nat, (-b) as nat);
        } else if a >= 0 && b >= 0 {
            lemma_decimal_injective(a as nat, b as nat);
        } else if a < 0 {
            assert(signed_decimal(a)[0] == 45u8);
        } else {
            assert(signed_decimal(b)[0] == 45u8);
        }
    }
}

/// Different optional numbers have different decimal forms.
pub proof fn lemma_optional_decimal_injective(a: Option<i32>, b: Option<i32>)
    requires
        optional_decimal(a) == optional_decimal(b),
    ensures
        a == b,
{
    match (a, b) {
        (Some(x), Some(y)) => lemma_signed_decimal_injective(x as int, y as int),
        (Some(x), None) => lemma_signed_decimal_injective(x as int, x as int),
        (None, Some(y)) => lemma_signed_decimal_injective(y as int, y as int),
        (None, None) => {},
    }
}

/// Different texts have different UTF-8 encodings.
pub proof fn lemma_utf8_injective(a: Seq<char>, b: Seq<char>)
    requires
        encode_utf8(a) == encode_utf8(b),
    ensures
        a == b,
{
    encode_utf8_decode_utf8(a);
    encode_utf8_decode_utf8(b);
}

proof fn lemma_hex_len(b: Seq<u8>)
    ensures
        hex_lower(b).len() == 2 * b.len(),
    decreases b.len(),
{
    if b.len() > 0 {
        lemma_hex_len(b.drop_last());
    }
}

/// Different byte strings have different hexadecimal forms.
pub proof fn lemma_hex_injective(a: Seq<u8>, b: Seq<u8>)
    requires
        hex_lower(a) == hex_lower(b),
    ensures
        a == b,
    decreases a.len(),
{
    lemma_hex_len(a);
    lemma_hex_len(b);
    if a.len() > 0 {
        let ha = hex_lower(a);
        let hb = hex_lower(b);
        lemma_hex_len(a.drop_last());
        lemma_hex_len(b.drop_last());
        assert(hex_lower(a.drop_last()) =~= ha.subrange(0, ha.len() - 2));
        assert(hex_lower(b.drop_last()) =~= hb.subrange(0, hb.len() - 2));
        lemma_hex_injective(a.drop_last(), b.drop_last());
        let x = a.last();
        let y = b.last();
        assert(ha[ha.len() - 2] == hex_digit(x / 16));
        assert(hb[hb.len() - 2] == hex_digit(y / 16));
        assert(ha[ha.len() - 1] == hex_digit(x % 16));
        assert(hb[hb.len() - 1] == hex_digit(y % 16));
        assert(x / 16 == y / 16);
        assert(x % 16 == y % 16);
        assert(x == y);
        assert(a =~= a.drop_last().push(x));
        assert(b =~= b.drop_last().push(y));
    } else {
        assert(a =~= b);
    }
}

/// Two byte strings that share their surroundings differ where they differ in the middle.
proof fn lemma_middle_differs(p: Seq<u8>, x: Seq<u8>, y: Seq<u8>, q: Seq<u8>)
    requires
        x != y,
    ensures
        p + x + q != p + y + q,
{
    if p + x + q == p + y + q {
        if x.len() == y.len() {
            assert((p + x + q).subrange(p.len() as int, p.len() + x.len() as int) =~= x);
            assert((p + y + q).subrange(p.len() as int, p.len() + y.len() as int) =~= y);
        } else {
            assert((p + x + q).len() != (p + y + q).len());
        }
    }
}

/// Appending the same bytes keeps two different byte strings different.
proof fn lemma_suffix_differs(x: Seq<u8>, y: Seq<u8>, q: Seq<u8>)
    requires
        x != y,
    ensures
        x + q != y + q,
{
    if x + q == y + q {
        assert((x + q).subrange(0, x.len() as int) =~= x);
        assert((y + q).subrange(0, y.len() as int) =~= y);
    }
}

/// Text of an optional comment, an absent comment reading as empty.
pub open spec fn comment_chars(c: Option<Seq<char>>) -> Seq<char> {
    match c {
        Some(t) => t,
        None => Seq::empty(),
    }
}

proof fn lemma_optional_text_chars(c: Option<Seq<char>>)
    ensures
        optional_text(c) == encode_utf8(comment_chars(c)),
{
    if c is None {
        assert(encode_utf8(Seq::<char>::empty()) =~= Seq::<u8>::empty());
    }
}

proof fn lemma_domain_changed(
    id: i64,
    d1: Seq<char>,
    d2: Seq<char>,
    u: Seq<char>,
    t: Option<i32>,
    b: Option<i32>,
    c: Option<Seq<char>>,
)
    requires
        d1 != d2,
    ensures
        change_input(id, d1, u, t, b, c) != change_input(id, d2, u, t, b, c),
{
    if encode_utf8(d1) == encode_utf8(d2) {
        lemma_utf8_injective(d1, d2);
    }
    let p = signed_decimal(id as int) + delimiter();
    let e = Seq::<u8>::empty();
    lemma_middle_differs(p, encode_utf8(d1), encode_utf8(d2), e);
    assert(p + encode_utf8(d1) + e =~= p + encode_utf8(d1));
    assert(p + encode_utf8(d2) + e =~= p + encode_utf8(d2));
    let x1 = p + encode_utf8(d1);
    let x2 = p + encode_utf8(d2);
    lemma_suffix_differs(x1, x2, delimiter());
    lemma_suffix_differs(x1 + delimiter(), x2 + delimiter(), encode_utf8(u));
    let y1 = x1 + delimiter() + encode_utf8(u);
    let y2 = x2 + delimiter() + encode_utf8(u);
    lemma_suffix_differs(y1, y2, delimiter());
    lemma_suffix_differs(y1 + delimiter(), y2 + delimiter(), optional_decimal(t));
    let z1 = y1 + delimiter() + optional_decimal(t);
    let z2 = y2 + delimiter() + optional_decimal(t);
    lemma_suffix_differs(z1, z2, delimiter());
    lemma_suffix_differs(z1 + delimiter(), z2 + delimiter(), optional_decimal(b));
    let w1 = z1 + delimiter() + optional_decimal(b);
    let w2 = z2 + delimiter() + optional_decimal(b);
    lemma_suffix_differs(w1, w2, delimiter());
    lemma_suffix_differs(w1 + delimiter(), w2 + delimiter(), optional_text(c));
}

proof fn lemma_user_changed(
    id: i64,
    d: Seq<char>,
    u1: Seq<char>,
    u2: Seq<char>,
    t: Option<i32>,
    b: Option<i32>,
    c: Option<Seq<char>>,
)
    requires
        u1 != u2,
    ensures
        change_input(id, d, u1, t, b, c) != change_input(id, d, u2, t, b, c),
{
    if encode_utf8(u1) == encode_utf8(u2) {
        lemma_utf8_injective(u1, u2);
    }
    let p = signed_decimal(id as int) + delimiter() + encode_utf8(d) + delimiter();
    let q = delimiter() + optional_decimal(t) + delimiter() + optional_decimal(b) + delimiter()
        + optional_text(c);
    assert(change_input(id, d, u1, t, b, c) =~= p + encode_utf8(u1) + q);
    assert(change_input(id, d, u2, t, b, c) =~= p + encode_utf8(u2) + q);
    lemma_middle_differs(p, encode_utf8(u1), encode_utf8(u2), q);
}

proof fn lemma_trust_changed(
    id: i64,
    d: Seq<char>,
    u: Seq<char>,
    t1: Option<i32>,
    t2: Option<i32>,
    b: Option<i32>,
    c: Option<Seq<char>>,
)
    requires
        t1 != t2,
    ensures
        change_input(id, d, u, t1, b, c) != change_input(id, d, u, t2, b, c),
{
    if optional_decimal(t1) == optional_decimal(t2) {
        lemma_optional_decimal_injective(t1, t2);
    }
    let p = signed_decimal(id as int) + delimiter() + encode_utf8(d) + delimiter() + encode_utf8(u)
        + delimiter();
    let q = delimiter() + optional_decimal(b) + delimiter() + optional_text(c);
    assert(change_input(id, d, u, t1, b, c) =~= p + optional_decimal(t1) + q);
    assert(change_input(id, d, u, t2, b, c) =~= p + optional_decimal(t2) + q);
    lemma_middle_differs(p, optional_decimal(t1), optional_decimal(t2), q);
}

proof fn lemma_bias_changed(
    id: i64,
    d: Seq<char>,
    u: Seq<char>,
    t: Option<i32>,
    b1: Option<i32>,
    b2: Option<i32>,
    c: Option<Seq<char>>,
)
    requires
        b1 != b2,
    ensures
        change_input(id, d, u, t, b1, c) != change_input(id, d, u, t, b2, c),
{
    if optional_decimal(b1) == optional_decimal(b2) {
        lemma_optional_decimal_injective(b1, b2);
    }
    let p = signed_decimal(id as int) + delimiter() + encode_utf8(d) + delimiter() + encode_utf8(u)
        + delimiter() + optional_decimal(t) + delimiter();
    let q = delimiter() + optional_text(c);
    assert(change_input(id, d, u, t, b1, c) =~= p + optional_decimal(b1) + q);
    assert(change_input(id, d, u, t, b2, c) =~= p + optional_decimal(b2) + q);
    lemma_middle_differs(p, optional_decimal(b1), optional_decimal(b2), q);
}

proof fn lemma_comment_changed(
    id: i64,
    d: Seq<char>,
    u: Seq<char>,
    t: Option<i32>,
    b: Option<i32>,
    c1: Option<Seq<char>>,
    c2: Option<Seq<char>>,
)
    requires
        comment_chars(c1) != comment_chars(c2),
    ensures
        change_input(id, d, u, t, b, c1) != change_input(id, d, u, t, b, c2),
{
    lemma_optional_text_chars(c1);
    lemma_optional_text_chars(c2);
    if optional_text(c1) == optional_text(c2) {
        lemma_utf8_injective(comment_chars(c1), comment_chars(c2));
    }
    let p = signed_decimal(id as int) + delimiter() + encode_utf8(d) + delimiter() + encode_utf8(u)
        + delimiter() + optional_decimal(t) + delimiter() + optional_decimal(b) + delimiter();
    let q = Seq::<u8>::empty();
    assert(change_input(id, d, u, t, b, c1) =~= p + optional_text(c1) + q);
    assert(change_input(id, d, u, t, b, c2) =~= p + optional_text(c2) + q);
    lemma_middle_differs(p, optional_text(c1), optional_text(c2), q);
}

/// Changing any one field of a change-hash input changes the input. An absent
/// comment and an empty comment read alike.
pub proof fn lemma_change_input_field(
    rating_id: i64,
    domain_url: Seq<char>,
    user_hash: Seq<char>,
    trust_level: Option<i32>,
    bias_level: Option<i32>,
    comment: Option<Seq<char>>,
    domain_url2: Seq<char>,
    user_hash2: Seq<char>,
    trust_level2: Option<i32>,
    bias_level2: Option<i32>,
    comment2: Option<Seq<char>>,
)
    requires
        (domain_url != domain_url2 && user_hash == user_hash2 && trust_level == trust_level2
            && bias_level == bias_level2 && comment == comment2) || (domain_url == domain_url2
            && user_hash != user_hash2 && trust_level == trust_level2 && bias_level == bias_level2
            && comment == comment2) || (domain_url == domain_url2 && user_hash == user_hash2
            && trust_level != trust_level2 && bias_level == bias_level2 && comment == comment2) || (
        domain_url == domain_url2 && user_hash == user_hash2 && trust_level == trust_level2
            && bias_level != bias_level2 && comment == comment2) || (domain_url == domain_url2
            && user_hash == user_hash2 && trust_level == trust_level2 && bias_level == bias_level2
            && comment_chars(comment) != comment_chars(comment2)),
    ensures
        change_input(rating_id, domain_url, user_hash, trust_level, bias_level, comment)
            != change_input(rating_id, domain_url2, user_hash2, trust_level2, bias_level2, comment2),
{
    if domain_url != domain_url2 {
        lemma_domain_changed(rating_id, domain_url, domain_url2, user_hash, trust_level, bias_level, comment);
    } else if user_hash != user_hash2 {
        lemma_user_changed(rating_id, domain_url, user_hash, user_hash2, trust_level, bias_level, comment);
    } else if trust_level != trust_level2 {
        lemma_trust_changed(rating_id, domain_url, user_hash, trust_level, trust_level2, bias_level, comment);
    } else if bias_level != bias_level2 {
        lemma_bias_changed(rating_id, domain_url, user_hash, trust_level, bias_level, bias_level2, comment);
    } else {
        lemma_comment_changed(rating_id, domain_url, user_hash, trust_level, bias_level, comment, comment2);
    }
}

/// Appends the decimal digits of `n`.
fn push_decimal(out: &mut Vec<u8>, n: u64)
    ensures
        final(out)@ == old(out)@ + decimal(n as nat),
    decreases n,
{
    if n >= 10 {
        push_decimal(out, n / 10);
    }
    let digit: u8 = (n % 10) as u8;
    out.push(48u8 + digit);
    proof {
        if n < 10 {
            assert(decimal(n as nat) == seq![(48 + n) as u8]);
        } else {
            assert(decimal(n as nat) == decimal((n / 10) as nat) + seq![(48 + n % 10) as u8]);
        }
    }
}

/// Appends the decimal form of `i`, with a leading `-` when negative.
fn push_signed_decimal(out: &mut Vec<u8>, i: i64)
    ensures
        final(out)@ == old(out)@ + signed_decimal(i as int),
{
    if i < 0 {
        out.push(45u8);
        let magnitude: u64 = (0i128 - i as i128) as u64;
        push_decimal(out, magnitude);
    } else {
        push_decimal(out, i as u64);
    }
}

/// Appends the UTF-8 bytes of `s`.
fn push_text(out: &mut Vec<u8>, s: &str)
    ensures
        final(out)@ == old(out)@ + encode_utf8(s@),
{
    let ghost before = out@;
    let bytes = s.as_bytes();
    out.extend_from_slice(bytes);
    assert(out@ =~= before + encode_utf8(s@));
}

/// Builds the canonical bytes of a change hash: the fields in a fixed order,
/// separated by `|`, with absent values written as nothing.
pub fn change_hash_input(
    rating_id: i64,
    domain_url: &str,
    user_hash: &str,
    trust_level: Option<i32>,
    bias_level: Option<i32>,
    comment: Option<&str>,
) -> (r: Vec<u8>)
    ensures
        r@ == change_input(
            rating_id,
            domain_url@,
            user_hash@,
            trust_level,
            bias_level,
            match comment {
                Some(c) => Some(c@),
                None => None,
            },
        ),
{
    let mut out: Vec<u8> = Vec::new();
    push_signed_decimal(&mut out, rating_id);
    out.push(124u8);
    push_text(&mut out, domain_url);
    out.push(124u8);
    push_text(&mut out, user_hash);
    out.push(124u8);
    if let Some(t) = trust_level {
        push_signed_decimal(&mut out, t as i64);
    }
    out.push(124u8);
    if let Some(b) = bias_level {
        push_signed_decimal(&mut out, b as i64);
    }
    out.push(124u8);
    if let Some(c) = comment {
        push_text(&mut out, c);
    }
    assert(out@ =~= change_input(
        rating_id,
        domain_url@,
        user_hash@,
        trust_level,
        bias_level,
        match comment {
            Some(c) => Some(c@),
            None => None,
        },
    ));
    out
}

} // verus!
