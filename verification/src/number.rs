//! Number literals: decimal integers to and from text, and the shape of a
//! float literal.

use vstd::prelude::*;

verus! {

pub open spec fn is_digit(c: u8) -> bool {
    48 <= c <= 57
}

pub open spec fn is_sign(c: u8) -> bool {
    c == 43 || c == 45
}

/// The decimal digits of `n`, most significant first, without leading zeros.
pub open spec fn nat_text(n: nat) -> Seq<u8>
    decreases n,
{
    if n < 10 {
        seq![(48 + n) as u8]
    } else {
        nat_text(n / 10).push((48 + n % 10) as u8)
    }
}

/// The decimal literal of `n`: a minus sign for a negative number, then the
/// digits of its magnitude.
pub open spec fn int_text(n: int) -> Seq<u8> {
    if n < 0 {
        seq![45u8] + nat_text((-n) as nat)
    } else {
        nat_text(n as nat)
    }
}

/// Whether `s` is one or more decimal digits.
pub open spec fn is_digits(s: Seq<u8>) -> bool {
    s.len() > 0 && forall|i: int| 0 <= i < s.len() ==> is_digit(#[trigger] s[i])
}

/// The number that a string of decimal digits denotes.
pub open spec fn digits_value(s: Seq<u8>) -> nat
    decreases s.len(),
{
    if s.len() == 0 {
        0
    } else {
        (digits_value(s.drop_last()) * 10 + (s.last() - 48)) as nat
    }
}

/// The digits of an integer literal: what follows its optional sign.
pub open spec fn int_body(s: Seq<u8>) -> Seq<u8> {
    if s.len() > 0 && is_sign(s[0]) {
        s.skip(1)
    } else {
        s
    }
}

/// The signed 64-bit integer that `s` denotes: an optional `+` or `-`, then
/// one or more digits, the value within range. `None` for anything else.
pub open spec fn spec_parse_int(s: Seq<u8>) -> Option<i64> {
    let body = int_body(s);
    if !is_digits(body) {
        None
    } else {
        let v: int = if s[0] == 45 {
            -(digits_value(body) as int)
        } else {
            digits_value(body) as int
        };
        if -0x8000_0000_0000_0000 <= v <= 0x7FFF_FFFF_FFFF_FFFF {
            Some(v as i64)
        } else {
            None
        }
    }
}

/// How many digits stand in `s` from position `i` on, up to the first byte
/// that is no digit.
pub open spec fn count_digits(s: Seq<u8>, i: int) -> int
    decreases s.len() - i,
{
    if 0 <= i < s.len() && is_digit(s[i]) {
        1 + count_digits(s, i + 1)
    } else {
        0
    }
}

/// The letter `c` in lower case; any other byte as it is.
pub open spec fn lower(c: u8) -> u8 {
    if 65 <= c <= 90 {
        (c + 32) as u8
    } else {
        c
    }
}

/// Whether `s` is the lower-case word `w`, in any mix of cases.
pub open spec fn is_word(s: Seq<u8>, w: Seq<u8>) -> bool {
    s.len() == w.len() && forall|i: int| 0 <= i < s.len() ==> lower(#[trigger] s[i]) == w[i]
}

/// Whether `s` names a float that has no digits: `inf`, `infinity` or `nan`,
/// in any mix of cases, after an optional sign.
pub open spec fn is_named_float(s: Seq<u8>) -> bool {
    let body = int_body(s);
    ||| is_word(body, seq![105u8, 110u8, 102u8])
    ||| is_word(body, seq![105u8, 110u8, 102u8, 105u8, 110u8, 105u8, 116u8, 121u8])
    ||| is_word(body, seq![110u8, 97u8, 110u8])
}

/// Whether `s` is a float literal: a decimal one, or the name of a float
/// without digits.
pub open spec fn is_float_literal(s: Seq<u8>) -> bool {
    is_named_float(s) || is_decimal_float(s)
}

/// Whether `s` has the shape of a decimal float literal: an optional sign; a
/// mantissa of digits with at most one point in or after them and at least
/// one digit in all; then optionally `e` or `E`, an optional sign and one or
/// more digits.
pub open spec fn is_decimal_float(s: Seq<u8>) -> bool {
    let a: int = if s.len() > 0 && is_sign(s[0]) { 1 } else { 0 };
    let n1 = count_digits(s, a);
    let b = a + n1;
    let has_dot = b < s.len() && s[b] == 46;
    let c = if has_dot { b + 1 } else { b };
    let n2 = if has_dot { count_digits(s, c) } else { 0 };
    let d = c + n2;
    &&& n1 + n2 > 0
    &&& (d == s.len() || ({
        let e0 = d + 1;
        let e = if e0 < s.len() && is_sign(s[e0]) { e0 + 1 } else { e0 };
        let n3 = count_digits(s, e);
        &&& (s[d] == 101 || s[d] == 69)
        &&& n3 > 0
        &&& e + n3 == s.len()
    }))
}

/// A longer string of digits denotes no smaller a number than its beginning.
pub proof fn lemma_digits_prefix(s: Seq<u8>, k: int)
    requires
        0 <= k <= s.len(),
        forall|i: int| 0 <= i < s.len() ==> is_digit(#[trigger] s[i]),
    ensures
        digits_value(s.take(k)) <= digits_value(s),
    decreases s.len() - k,
{
    if k == s.len() {
        assert(s.take(k) =~= s);
    } else {
        lemma_digits_prefix(s.drop_last(), k);
        assert(s.drop_last().take(k) =~= s.take(k));
        assert(is_digit(s[s.len() - 1]));
    }
}

/// Position of the first byte from `i` on that is no digit.
pub fn skip_digits(s: &[u8], i: usize) -> (r: usize)
    requires
        i <= s.len(),
    ensures
        r == i + count_digits(s@, i as int),
        i <= r <= s.len(),
    decreases s.len() - i,
{
    if i < s.len() && s[i] >= 48 && s[i] <= 57 {
        skip_digits(s, i + 1)
    } else {
        i
    }
}

fn lower_of(c: u8) -> (r: u8)
    ensures
        r == lower(c),
{
    if 65 <= c && c <= 90 {
        c + 32
    } else {
        c
    }
}

/// Whether `s` names a float that has no digits.
pub fn named_float_p(s: &[u8]) -> (r: bool)
    ensures
        r == is_named_float(s@),
{
    let n: usize = s.len();
    let a: usize = if n > 0 && (s[0] == 43 || s[0] == 45) { 1 } else { 0 };
    let ghost body = int_body(s@);
    assert(body =~= s@.skip(a as int));
    let ghost inf = seq![105u8, 110u8, 102u8];
    let ghost infinity = seq![105u8, 110u8, 102u8, 105u8, 110u8, 105u8, 116u8, 121u8];
    let ghost nan = seq![110u8, 97u8, 110u8];
    if n - a == 3 {
        let c0: u8 = lower_of(s[a]);
        let c1: u8 = lower_of(s[a + 1]);
        let c2: u8 = lower_of(s[a + 2]);
        assert(body[0] == s@[a as int] && body[1] == s@[a + 1] && body[2] == s@[a + 2]);
        let r = (c0 == 105 && c1 == 110 && c2 == 102) || (c0 == 110 && c1 == 97 && c2 == 110);
        assert(is_word(body, inf) <==> (c0 == 105 && c1 == 110 && c2 == 102)) by {
            if is_word(body, inf) {
                assert(lower(body[0]) == inf[0] && lower(body[1]) == inf[1] && lower(body[2])
                    == inf[2]);
            }
        }
        assert(is_word(body, nan) <==> (c0 == 110 && c1 == 97 && c2 == 110)) by {
            if is_word(body, nan) {
                assert(lower(body[0]) == nan[0] && lower(body[1]) == nan[1] && lower(body[2])
                    == nan[2]);
            }
        }
        r
    } else if n - a == 8 {
        let mut i: usize = 0;
        let mut ok: bool = true;
        while i < 8
            invariant
                i <= 8,
                n - a == 8,
                n == s.len(),
                body == s@.skip(a as int),
                infinity == seq![105u8, 110u8, 102u8, 105u8, 110u8, 105u8, 116u8, 121u8],
                ok <==> forall|k: int| 0 <= k < i ==> lower(#[trigger] body[k]) == infinity[k],
            decreases 8 - i,
        {
            let want: u8 = if i == 0 || i == 3 || i == 5 {
                105
            } else if i == 1 || i == 4 {
                110
            } else if i == 2 {
                102
            } else if i == 6 {
                116
            } else {
                121
            };
            assert(want == infinity[i as int]);
            assert(body[i as int] == s@[a + i]);
            if lower_of(s[a + i]) != want {
                ok = false;
            }
            i += 1;
        }
        ok
    } else {
        false
    }
}

/// Whether `s` is a float literal.
pub fn float_literal_p(s: &[u8]) -> (r: bool)
    ensures
        r == is_float_literal(s@),
{
    named_float_p(s) || decimal_float_p(s)
}

/// Whether `s` has the shape of a decimal float literal.
pub fn decimal_float_p(s: &[u8]) -> (r: bool)
    ensures
        r == is_decimal_float(s@),
{
    let n: usize = s.len();
    let a: usize = if n > 0 && (s[0] == 43 || s[0] == 45) { 1 } else { 0 };
    let b: usize = skip_digits(s, a);
    let has_dot: bool = b < n && s[b] == 46;
    let c: usize = if has_dot { b + 1 } else { b };
    let d: usize = if has_dot { skip_digits(s, c) } else { c };
    if d == a || (has_dot && d == a + 1) {
        return false;
    }
    if d == n {
        return true;
    }
    if !(s[d] == 101 || s[d] == 69) {
        return false;
    }
    let e0: usize = d + 1;
    let e: usize = if e0 < n && (s[e0] == 43 || s[e0] == 45) { e0 + 1 } else { e0 };
    let f: usize = skip_digits(s, e);
    f > e && f == n
}

/// Reads a signed 64-bit decimal integer.
pub fn parse_int(s: &[u8]) -> (r: Option<i64>)
    ensures
        r == spec_parse_int(s@),
{
    let n: usize = s.len();
    let signed: bool = n > 0 && (s[0] == 43 || s[0] == 45);
    let neg: bool = n > 0 && s[0] == 45;
    let start: usize = if signed { 1 } else { 0 };
    let ghost body = int_body(s@);
    assert(body =~= s@.skip(start as int));
    if start == n {
        return None;
    }
    let mut acc: u64 = 0;
    let mut i: usize = start;
    assert(body.take(0) =~= Seq::<u8>::empty());
    while i < n
        invariant
            start <= i <= n,
            n == s.len(),
            body == s@.skip(start as int),
            body == int_body(s@),
            forall|k: int| 0 <= k < i - start ==> is_digit(#[trigger] body[k]),
            acc == digits_value(body.take(i - start)),
            acc <= 0x8000_0000_0000_0000,
        decreases n - i,
    {
        let c: u8 = s[i];
        assert(body[i - start] == c);
        if !(c >= 48 && c <= 57) {
            return None;
        }
        let d: u64 = (c - 48) as u64;
        assert(body.take(i - start + 1).drop_last() =~= body.take(i - start));
        assert(body.take(i - start + 1).last() == c);
        if acc > 922337203685477580 || (acc == 922337203685477580 && d > 8) {
            // Already past 2^63; the remaining bytes cannot bring the value back.
            let mut j: usize = i;
            while j < n
                invariant
                    i <= j <= n,
                    start <= i,
                    n == s.len(),
                    body == s@.skip(start as int),
                    body == int_body(s@),
                    forall|k: int| 0 <= k < j - start ==> is_digit(#[trigger] body[k]),
                decreases n - j,
            {
                assert(body[j - start] == s@[j as int]);
                if !(s[j] >= 48 && s[j] <= 57) {
                    return None;
                }
                j += 1;
            }
            proof {
                lemma_digits_prefix(body, i - start + 1);
                assert(digits_value(body.take(i - start + 1)) == acc * 10 + d);
            }
            return None;
        }
        acc = acc * 10 + d;
        i += 1;
    }
    assert(body.take(n - start) =~= body);
    if neg {
        if acc == 0x8000_0000_0000_0000 {
            Some(-0x8000_0000_0000_0000)
        } else {
            Some(-(acc as i64))
        }
    } else {
        if acc > 0x7FFF_FFFF_FFFF_FFFF {
            None
        } else {
            Some(acc as i64)
        }
    }
}

/// Appends the decimal digits of `n`.
pub fn push_nat(out: &mut Vec<u8>, n: u64)
    ensures
        final(out)@ == old(out)@ + nat_text(n as nat),
    decreases n,
{
    if n >= 10 {
        push_nat(out, n / 10);
    }
    out.push(48 + (n % 10) as u8);
    assert(final(out)@ =~= old(out)@ + nat_text(n as nat));
}

/// Appends the decimal literal of `n`.
pub fn push_int(out: &mut Vec<u8>, n: i64)
    ensures
        final(out)@ == old(out)@ + int_text(n as int),
{
    if n < 0 {
        out.push(45);
        let m: u64 = ((-(n + 1)) as u64) + 1;
        push_nat(out, m);
        assert(final(out)@ =~= old(out)@ + int_text(n as int));
    } else {
        push_nat(out, n as u64);
    }
}

/// The digits that are printed for a number denote that number.
pub proof fn lemma_nat_text_value(n: nat)
    ensures
        is_digits(nat_text(n)),
        digits_value(nat_text(n)) == n,
    decreases n,
{
    if n < 10 {
        let s = nat_text(n);
        assert(s.len() == 1);
        assert(s.drop_last() =~= Seq::<u8>::empty());
        assert(digits_value(s.drop_last()) == 0);
    } else {
        lemma_nat_text_value(n / 10);
        let s = nat_text(n);
        assert(s.drop_last() =~= nat_text(n / 10));
        assert(s.last() == (48 + n % 10) as u8);
        assert forall|i: int| 0 <= i < s.len() implies is_digit(#[trigger] s[i]) by {
            if i < s.len() - 1 {
                assert(s[i] == nat_text(n / 10)[i]);
            }
        }
    }
}

/// Printing and reading are inverse on integers: the decimal literal that is
/// printed for a signed 64-bit integer reads back as that integer.
pub proof fn lemma_int_reads_back(n: i64)
    ensures
        spec_parse_int(int_text(n as int)) == Some(n),
{
    let s = int_text(n as int);
    if n < 0 {
        let m = (-(n as int)) as nat;
        lemma_nat_text_value(m);
        assert(s[0] == 45);
        assert(int_body(s) =~= nat_text(m));
    } else {
        lemma_nat_text_value(n as nat);
        assert(is_digit(s[0]));
        assert(int_body(s) == s);
    }
}

} // verus!
