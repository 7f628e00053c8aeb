//! Decimal and hexadecimal rendering of integers, with the exact text each
//! produces, as used in messages, fingerprints and revisions.
use vstd::prelude::*;

verus! {

/// The character for digit `d` (0..16), lowercase for 10..16.
pub open spec fn digit_char(d: int) -> char {
    if d == 0 { '0' }
    else if d == 1 { '1' }
    else if d == 2 { '2' }
    else if d == 3 { '3' }
    else if d == 4 { '4' }
    else if d == 5 { '5' }
    else if d == 6 { '6' }
    else if d == 7 { '7' }
    else if d == 8 { '8' }
    else if d == 9 { '9' }
    else if d == 10 { 'a' }
    else if d == 11 { 'b' }
    else if d == 12 { 'c' }
    else if d == 13 { 'd' }
    else if d == 14 { 'e' }
    else { 'f' }
}

/// Decimal digits of `n`, most significant first, no leading zeros.
pub open spec fn dec_text(n: nat) -> Seq<char>
    decreases n,
{
    if n < 10 {
        seq![digit_char(n as int)]
    } else {
        dec_text(n / 10).push(digit_char((n % 10) as int))
    }
}

/// Decimal text of a signed integer, with a leading `-` when negative.
pub open spec fn signed_text(i: int) -> Seq<char> {
    if i < 0 {
        seq!['-'] + dec_text((-i) as nat)
    } else {
        dec_text(i as nat)
    }
}

/// The `width` low hexadecimal digits of `n`, zero padded.
pub open spec fn hex_text(n: nat, width: nat) -> Seq<char>
    decreases width,
{
    if width == 0 {
        Seq::empty()
    } else {
        hex_text(n / 16, (width - 1) as nat).push(digit_char((n % 16) as int))
    }
}

/// `{:?}` rendering of a string: quoted, with escapes.
pub uninterp spec fn debug_text(s: Seq<char>) -> Seq<char>;

/// Calls `String::push`.
#[verifier::external_body]
pub(crate) fn push_char(s: &mut String, c: char)
    ensures
        final(s)@ == old(s)@.push(c),
{
    s.push(c);
}

/// Formats `s` with `{:?}` (its `Debug` rendering); the result is named by
/// `debug_text`.
#[verifier::external_body]
pub(crate) fn debug_quoted(s: &str) -> (r: String)
    ensures
        r@ == debug_text(s@),
{
    format!("{s:?}")
}

fn digit(d: u64) -> (c: char)
    requires
        d < 16,
    ensures
        c == digit_char(d as int),
{
    if d == 0 { '0' }
    else if d == 1 { '1' }
    else if d == 2 { '2' }
    else if d == 3 { '3' }
    else if d == 4 { '4' }
    else if d == 5 { '5' }
    else if d == 6 { '6' }
    else if d == 7 { '7' }
    else if d == 8 { '8' }
    else if d == 9 { '9' }
    else if d == 10 { 'a' }
    else if d == 11 { 'b' }
    else if d == 12 { 'c' }
    else if d == 13 { 'd' }
    else if d == 14 { 'e' }
    else { 'f' }
}

/// Appends the decimal digits of `n`.
pub fn push_decimal(s: &mut String, n: u64)
    ensures
        final(s)@ == old(s)@ + dec_text(n as nat),
    decreases n,
{
    if n >= 10 {
        push_decimal(s, n / 10);
    }
    push_char(s, digit(n % 10));
    assert(final(s)@ =~= old(s)@ + dec_text(n as nat));
}

/// Appends the decimal text of a signed integer.
pub fn push_signed(s: &mut String, i: i64)
    ensures
        final(s)@ == old(s)@ + signed_text(i as int),
{
    if i < 0 {
        push_char(s, '-');
        let magnitude: u64 = if i == i64::MIN { 0x8000_0000_0000_0000u64 } else { (-i) as u64 };
        push_decimal(s, magnitude);
        assert(final(s)@ =~= old(s)@ + signed_text(i as int));
    } else {
        push_decimal(s, i as u64);
    }
}

/// Appends the `width` low hexadecimal digits of `n`, zero padded.
pub fn push_hex(s: &mut String, n: u64, width: u64)
    ensures
        final(s)@ == old(s)@ + hex_text(n as nat, width as nat),
    decreases width,
{
    if width > 0 {
        push_hex(s, n / 16, width - 1);
        push_char(s, digit(n % 16));
        assert(final(s)@ =~= old(s)@ + hex_text(n as nat, width as nat));
    } else {
        assert(final(s)@ =~= old(s)@ + hex_text(n as nat, width as nat));
    }
}

} // verus!

verus! {

/// Whether two texts are equal.
pub fn str_eq(a: &str, b: &str) -> (r: bool)
    ensures
        r == (a@ == b@),
{
    let na = a.unicode_len();
    let nb = b.unicode_len();
    if na != nb {
        return false;
    }
    let mut i: usize = 0;
    while i < na
        invariant
            0 <= i <= na,
            na == a@.len(),
            nb == b@.len(),
            na == nb,
            forall|j: int| 0 <= j < i ==> a@[j] == b@[j],
        decreases na - i,
    {
        if a.get_char(i) != b.get_char(i) {
            return false;
        }
        i = i + 1;
    }
    assert(a@ =~= b@);
    true
}

/// Whether `s` begins with `prefix`.
pub fn starts_with(s: &str, prefix: &str) -> (r: bool)
    ensures
        r == (prefix@.len() <= s@.len() && s@.subrange(0, prefix@.len() as int) == prefix@),
{
    let ns = s.unicode_len();
    let np = prefix.unicode_len();
    if np > ns {
        return false;
    }
    let mut i: usize = 0;
    while i < np
        invariant
            0 <= i <= np,
            np <= ns,
            ns == s@.len(),
            np == prefix@.len(),
            forall|j: int| 0 <= j < i ==> s@[j] == prefix@[j],
        decreases np - i,
    {
        if s.get_char(i) != prefix.get_char(i) {
            assert(s@.subrange(0, np as int)[i as int] != prefix@[i as int]);
            return false;
        }
        i = i + 1;
    }
    assert(s@.subrange(0, np as int) =~= prefix@);
    true
}

} // verus!

verus! {

/// Decimal text has at least one digit, and two or more exactly from 10 on.
pub proof fn lemma_dec_text_len(n: nat)
    ensures
        dec_text(n).len() >= 1,
        n >= 10 <==> dec_text(n).len() >= 2,
    decreases n,
{
    if n >= 10 {
        lemma_dec_text_len(n / 10);
    }
}

/// Different numbers have different decimal texts.
pub proof fn lemma_dec_text_injective(n: nat, m: nat)
    requires
        dec_text(n) == dec_text(m),
    ensures
        n == m,
    decreases n,
{
    lemma_dec_text_len(n);
    lemma_dec_text_len(m);
    if n < 10 {
        assert(m < 10);
        assert(dec_text(n)[0] == digit_char(n as int));
        assert(dec_text(m)[0] == digit_char(m as int));
    } else {
        assert(m >= 10);
        let a = dec_text(n);
        let b = dec_text(m);
        assert(a.last() == digit_char((n % 10) as int));
        assert(b.last() == digit_char((m % 10) as int));
        assert(n % 10 == m % 10);
        assert(a.drop_last() =~= dec_text(n / 10));
        assert(b.drop_last() =~= dec_text(m / 10));
        lemma_dec_text_injective(n / 10, m / 10);
    }
}

/// 16 to the power `w`.
pub open spec fn pow16(w: nat) -> nat
    decreases w,
{
    if w == 0 {
        1
    } else {
        16 * pow16((w - 1) as nat)
    }
}

/// Hexadecimal text of width `w` has exactly `w` digits.
pub proof fn lemma_hex_text_len(n: nat, w: nat)
    ensures
        hex_text(n, w).len() == w,
    decreases w,
{
    if w > 0 {
        lemma_hex_text_len(n / 16, (w - 1) as nat);
    }
}

/// Numbers below `16^w` have different `w`-digit hexadecimal texts.
pub proof fn lemma_hex_text_injective(n: nat, m: nat, w: nat)
    requires
        n < pow16(w),
        m < pow16(w),
        hex_text(n, w) == hex_text(m, w),
    ensures
        n == m,
    decreases w,
{
    if w == 0 {
    } else {
        let a = hex_text(n, w);
        let b = hex_text(m, w);
        assert(a.last() == digit_char((n % 16) as int));
        assert(b.last() == digit_char((m % 16) as int));
        assert(n % 16 == m % 16);
        assert(a.drop_last() =~= hex_text(n / 16, (w - 1) as nat));
        assert(b.drop_last() =~= hex_text(m / 16, (w - 1) as nat));
        assert(n / 16 < pow16((w - 1) as nat));
        assert(m / 16 < pow16((w - 1) as nat));
        lemma_hex_text_injective(n / 16, m / 16, (w - 1) as nat);
    }
}

/// A decimal digit character.
pub open spec fn is_digit(c: char) -> bool {
    0x30 <= (c as u32) <= 0x39
}

/// Decimal text consists of digits.
pub proof fn lemma_dec_text_digits(n: nat)
    ensures
        forall|i: int| 0 <= i < dec_text(n).len() ==> is_digit(#[trigger] dec_text(n)[i]),
    decreases n,
{
    if n >= 10 {
        lemma_dec_text_digits(n / 10);
        let d = dec_text(n);
        assert forall|i: int| 0 <= i < d.len() implies is_digit(#[trigger] d[i]) by {
            if i < d.len() - 1 {
                assert(d[i] == dec_text(n / 10)[i]);
            }
        }
    }
}

/// Signed decimal text consists of digits and `-`.
pub proof fn lemma_signed_text_chars(i: int)
    ensures
        forall|k: int|
            0 <= k < signed_text(i).len() ==> is_digit(#[trigger] signed_text(i)[k]) || signed_text(i)[k]
                == '-',
{
    if i < 0 {
        lemma_dec_text_digits((-i) as nat);
        let d = dec_text((-i) as nat);
        assert forall|k: int| 0 <= k < signed_text(i).len() implies is_digit(#[trigger] signed_text(i)[k])
            || signed_text(i)[k] == '-' by {
            if k > 0 {
                assert(signed_text(i)[k] == d[k - 1]);
            }
        }
    } else {
        lemma_dec_text_digits(i as nat);
    }
}

/// Different integers have different signed decimal texts.
pub proof fn lemma_signed_text_injective(i: int, j: int)
    requires
        signed_text(i) == signed_text(j),
    ensures
        i == j,
{
    lemma_dec_text_len((-i) as nat);
    lemma_dec_text_len(i as nat);
    lemma_dec_text_len((-j) as nat);
    lemma_dec_text_len(j as nat);
    if i < 0 && j < 0 {
        assert(signed_text(i).drop_first() =~= dec_text((-i) as nat));
        assert(signed_text(j).drop_first() =~= dec_text((-j) as nat));
        lemma_dec_text_injective((-i) as nat, (-j) as nat);
    } else if i >= 0 && j >= 0 {
        lemma_dec_text_injective(i as nat, j as nat);
    } else if i < 0 {
        lemma_dec_text_digits(j as nat);
        assert(signed_text(i)[0] == '-');
        assert(is_digit(dec_text(j as nat)[0]));
    } else {
        lemma_dec_text_digits(i as nat);
        assert(signed_text(j)[0] == '-');
        assert(is_digit(dec_text(i as nat)[0]));
    }
}

/// Splitting at the first separator: texts that hold no `c` before it are
/// recovered from their concatenation.
pub proof fn lemma_split_first(a1: Seq<char>, r1: Seq<char>, a2: Seq<char>, r2: Seq<char>, c: char)
    requires
        !a1.contains(c),
        !a2.contains(c),
        a1 + seq![c] + r1 == a2 + seq![c] + r2,
    ensures
        a1 == a2,
        r1 == r2,
{
    let l = a1 + seq![c] + r1;
    let r = a2 + seq![c] + r2;
    if a1.len() < a2.len() {
        assert(l[a1.len() as int] == c);
        assert(r[a1.len() as int] == a2[a1.len() as int]);
        assert(a2.contains(c));
    } else if a2.len() < a1.len() {
        assert(r[a2.len() as int] == c);
        assert(l[a2.len() as int] == a1[a2.len() as int]);
        assert(a1.contains(c));
    }
    assert(l.subrange(0, a1.len() as int) =~= a1);
    assert(r.subrange(0, a2.len() as int) =~= a2);
    assert(l.skip(a1.len() + 1int) =~= r1);
    assert(r.skip(a2.len() + 1int) =~= r2);
}

/// Splitting at the last separator: texts that hold no `c` after it are
/// recovered from their concatenation.
pub proof fn lemma_split_last(r1: Seq<char>, d1: Seq<char>, r2: Seq<char>, d2: Seq<char>, c: char)
    requires
        !d1.contains(c),
        !d2.contains(c),
        r1 + seq![c] + d1 == r2 + seq![c] + d2,
    ensures
        r1 == r2,
        d1 == d2,
{
    let l = r1 + seq![c] + d1;
    let r = r2 + seq![c] + d2;
    assert(l.len() == r.len());
    if d1.len() < d2.len() {
        let k = r2.len() + 1 + d2.len() - d1.len() - 1;
        assert(l[k] == c);
        assert(r[k] == d2[d2.len() - d1.len() - 1]);
        assert(d2.contains(c));
    } else if d2.len() < d1.len() {
        let k = r1.len() + 1 + d1.len() - d2.len() - 1;
        assert(r[k] == c);
        assert(l[k] == d1[d1.len() - d2.len() - 1]);
        assert(d1.contains(c));
    }
    assert(l.subrange(0, r1.len() as int) =~= r1);
    assert(r.subrange(0, r2.len() as int) =~= r2);
    assert(l.skip(r1.len() + 1int) =~= d1);
    assert(r.skip(r2.len() + 1int) =~= d2);
}

} // verus!
