//! Numeric literals: the value of a digit string in a radix, and the
//! decimal text of a value.
use vstd::prelude::*;
use crate::common::ErrorKind;
use vstd::arithmetic::power::pow;

verus! {

/// The value of one digit in radix 2, 10 or 16 (hex digits of either case).
pub open spec fn digit_of(c: char, radix: nat) -> Option<nat> {
    if '0' <= c && c <= '9' && (c as nat) - ('0' as nat) < radix {
        Some(((c as nat) - ('0' as nat)) as nat)
    } else if radix == 16 && 'a' <= c && c <= 'f' {
        Some(((c as nat) - ('a' as nat) + 10) as nat)
    } else if radix == 16 && 'A' <= c && c <= 'F' {
        Some(((c as nat) - ('A' as nat) + 10) as nat)
    } else {
        None
    }
}

/// The value of a non-empty string of digits, most significant first.
pub open spec fn digits_value(s: Seq<char>, radix: nat) -> Option<nat>
    decreases s.len(),
{
    if s.len() == 0 {
        None
    } else if s.len() == 1 {
        digit_of(s[0], radix)
    } else {
        match (digits_value(s.drop_last(), radix), digit_of(s.last(), radix)) {
            (Some(v), Some(d)) => Some(v * radix + d),
            _ => None,
        }
    }
}

/// The value of a literal as a 64-bit word: invalid digits, or a value
/// beyond 64 bits, are errors.
pub open spec fn number_result(s: Seq<char>, radix: nat) -> Result<u64, ErrorKind> {
    match digits_value(s, radix) {
        Some(v) => if v <= u64::MAX { Ok(v as u64) } else { Err(ErrorKind::NumberTooBig) },
        None => Err(ErrorKind::InvalidNumber),
    }
}

pub proof fn lemma_all_digits_some(s: Seq<char>, radix: nat)
    requires
        s.len() > 0,
        forall|i: int| 0 <= i < s.len() ==> digit_of(#[trigger] s[i], radix) is Some,
    ensures
        digits_value(s, radix) is Some,
    decreases s.len(),
{
    if s.len() > 1 {
        let t = s.drop_last();
        assert forall|i: int| 0 <= i < t.len() implies digit_of(#[trigger] t[i], radix) is Some by {
            assert(t[i] == s[i]);
        }
        lemma_all_digits_some(t, radix);
        assert(digit_of(s[s.len() - 1], radix) is Some);
    }
}

pub(crate) fn digit_exec(c: char, radix: u32) -> (r: Option<u64>)
    requires
        radix == 2 || radix == 10 || radix == 16,
    ensures
        r matches Some(d) ==> digit_of(c, radix as nat) == Some(d as nat) && d < radix,
        r is None ==> digit_of(c, radix as nat) is None,
{
    if '0' <= c && c <= '9' {
        let d = (c as u32 - '0' as u32) as u64;
        if d < radix as u64 { Some(d) } else { None }
    } else if radix == 16 && 'a' <= c && c <= 'f' {
        Some((c as u32 - 'a' as u32 + 10) as u64)
    } else if radix == 16 && 'A' <= c && c <= 'F' {
        Some((c as u32 - 'A' as u32 + 10) as u64)
    } else {
        None
    }
}

proof fn lemma_value_monotone(s: Seq<char>, radix: nat, k: int)
    requires
        radix >= 2,
        0 < k <= s.len(),
        digits_value(s, radix) is Some,
    ensures
        digits_value(s.subrange(0, k), radix) is Some,
        digits_value(s.subrange(0, k), radix).unwrap() <= digits_value(s, radix).unwrap(),
    decreases s.len(),
{
    if k == s.len() {
        assert(s.subrange(0, k) =~= s);
    } else {
        assert(s.len() > 1);
        lemma_value_monotone(s.drop_last(), radix, k);
        assert(s.drop_last().subrange(0, k) =~= s.subrange(0, k));
        let v = digits_value(s.drop_last(), radix).unwrap();
        assert(v <= v * radix) by (nonlinear_arith) requires radix >= 2;
    }
}

/// The value of the digits of `s` in `radix`.
pub fn parse_digits(s: &str, radix: u32) -> (r: Result<u64, ErrorKind>)
    requires
        radix == 2 || radix == 10 || radix == 16,
    ensures
        r == number_result(s@, radix as nat),
{
    let n = s.unicode_len();
    if n == 0 {
        return Err(ErrorKind::InvalidNumber);
    }
    let mut i: usize = 0;
    while i < n
        invariant
            0 <= i <= n,
            n == s@.len(),
            radix == 2 || radix == 10 || radix == 16,
            forall|k: int| 0 <= k < i ==> digit_of(#[trigger] s@[k], radix as nat) is Some,
        decreases n - i,
    {
        if digit_exec(s.get_char(i), radix).is_none() {
            proof {
                let pre = s@.subrange(0, i + 1);
                assert(pre.last() == s@[i as int]);
                if i > 0 {
                    assert(pre.drop_last() =~= s@.subrange(0, i as int));
                }
                lemma_prefix_invalid(s@, radix as nat, i + 1);
            }
            return Err(ErrorKind::InvalidNumber);
        }
        i = i + 1;
    }
    proof {
        lemma_all_digits_some(s@, radix as nat);
    }
    let mut acc: u64 = 0;
    let mut i: usize = 0;
    while i < n
        invariant
            n == s@.len(),
            0 <= i <= n,
            radix == 2 || radix == 10 || radix == 16,
            digits_value(s@, radix as nat) is Some,
            forall|k: int| 0 <= k < n ==> digit_of(#[trigger] s@[k], radix as nat) is Some,
            i > 0 ==> digits_value(s@.subrange(0, i as int), radix as nat) == Some(acc as nat),
        decreases n - i,
    {
        let c = s.get_char(i);
        let d = match digit_exec(c, radix) {
            Some(d) => d,
            None => {
                assert(digit_of(s@[i as int], radix as nat) is Some);
                return Err(ErrorKind::InvalidNumber);
            },
        };
        let ghost pre = s@.subrange(0, i as int + 1);
        assert(pre.drop_last() =~= s@.subrange(0, i as int));
        if i == 0 {
            acc = d;
        } else {
            let r64 = radix as u64;
            let lim = (u64::MAX - d) / r64;
            if acc > lim {
                proof {
                    assert(acc * r64 + d > u64::MAX) by (nonlinear_arith)
                        requires acc > lim, lim == (u64::MAX - d) / (r64 as int), r64 >= 2, d < r64;
                    lemma_value_monotone(s@, radix as nat, i as int + 1);
                }
                return Err(ErrorKind::NumberTooBig);
            }
            proof {
                assert(acc * r64 + d <= u64::MAX) by (nonlinear_arith)
                    requires acc <= lim, lim == (u64::MAX - d) / (r64 as int), r64 >= 2, d < r64;
            }
            acc = acc * r64 + d;
        }
        i = i + 1;
    }
    assert(s@.subrange(0, n as int) =~= s@);
    Ok(acc)
}

proof fn lemma_prefix_invalid(s: Seq<char>, radix: nat, k: int)
    requires
        radix >= 2,
        0 < k <= s.len(),
        digits_value(s.subrange(0, k), radix) is None,
    ensures
        digits_value(s, radix) is None,
{
    if digits_value(s, radix) is Some {
        lemma_value_monotone(s, radix, k);
    }
}

/// The character of a decimal digit.
pub open spec fn dec_char(d: nat) -> char {
    if d == 0 { '0' } else if d == 1 { '1' } else if d == 2 { '2' } else if d == 3 { '3' }
    else if d == 4 { '4' } else if d == 5 { '5' } else if d == 6 { '6' } else if d == 7 { '7' }
    else if d == 8 { '8' } else { '9' }
}

/// The decimal text of a value, without leading zeros.
pub open spec fn dec_digits(n: nat) -> Seq<char>
    decreases n,
{
    if n < 10 {
        seq![dec_char(n)]
    } else {
        dec_digits(n / 10).push(dec_char(n % 10))
    }
}

/// Printing a value in decimal and reading it back gives the value.
pub proof fn lemma_decimal_round_trip(n: nat)
    ensures
        digits_value(dec_digits(n), 10) == Some(n),
        dec_digits(n).len() >= 1,
    decreases n,
{
    if n < 10 {
    } else {
        lemma_decimal_round_trip(n / 10);
        let s = dec_digits(n);
        assert(s.drop_last() == dec_digits(n / 10));
        assert(s.len() > 1);
    }
}

fn push_decimal(n: u64, out: &mut Vec<char>)
    ensures
        final(out)@ == old(out)@ + dec_digits(n as nat),
    decreases n,
{
    let d = n % 10;
    let c = if d == 0 { '0' } else if d == 1 { '1' } else if d == 2 { '2' } else if d == 3 { '3' }
        else if d == 4 { '4' } else if d == 5 { '5' } else if d == 6 { '6' } else if d == 7 { '7' }
        else if d == 8 { '8' } else { '9' };
    if n >= 10 {
        push_decimal(n / 10, out);
    }
    out.push(c);
    assert(final(out)@ =~= old(out)@ + dec_digits(n as nat));
}

/// The decimal digits of `n`.
pub fn decimal_chars(n: u64) -> (r: Vec<char>)
    ensures
        r@ == dec_digits(n as nat),
{
    let mut v: Vec<char> = Vec::new();
    push_decimal(n, &mut v);
    assert(v@ =~= dec_digits(n as nat));
    v
}


/// The value of one digit, zero where it is none.
pub open spec fn digit_val(c: char, radix: nat) -> nat {
    match digit_of(c, radix) {
        Some(d) => d,
        None => 0,
    }
}

/// The positional sum: each digit times the radix to the power of its
/// place, counted from the right.
pub open spec fn positional(s: Seq<char>, radix: nat) -> int
    decreases s.len(),
{
    if s.len() == 0 {
        0
    } else {
        digit_val(s[0], radix) * pow(radix as int, (s.len() - 1) as nat) + positional(s.drop_first(), radix)
    }
}

proof fn lemma_positional_push(t: Seq<char>, c: char, radix: nat)
    ensures
        positional(t.push(c), radix) == radix * positional(t, radix) + digit_val(c, radix),
    decreases t.len(),
{
    reveal(pow);
    let u = t.push(c);
    assert(positional(Seq::<char>::empty(), radix) == 0);
    if t.len() == 0 {
        assert(u.drop_first() =~= Seq::<char>::empty());
        assert(u[0] == c);
        assert(pow(radix as int, 0) == 1);
        assert(positional(u, radix) == digit_val(c, radix) * pow(radix as int, 0) + positional(Seq::<char>::empty(), radix));
        assert(positional(t, radix) == 0);
    } else {
        assert(u.drop_first() =~= t.drop_first().push(c));
        assert(u[0] == t[0]);
        lemma_positional_push(t.drop_first(), c, radix);
        let n = t.len();
        let d0 = digit_val(t[0], radix) as int;
        let r = radix as int;
        assert(pow(r, n as nat) == r * pow(r, (n - 1) as nat));
        let p = pow(r, (n - 1) as nat);
        let q = positional(t.drop_first(), radix);
        assert(positional(u, radix) == d0 * pow(r, n as nat) + positional(t.drop_first().push(c), radix));
        assert(positional(t, radix) == d0 * p + q);
        assert(d0 * (r * p) + (r * q + digit_val(c, radix)) == r * (d0 * p + q) + digit_val(c, radix)) by (nonlinear_arith);
    }
}

/// A digit string read in its radix is the positional sum of its digits.
pub proof fn lemma_digits_positional(s: Seq<char>, radix: nat)
    requires
        digits_value(s, radix) is Some,
    ensures
        digits_value(s, radix)->Some_0 == positional(s, radix),
    decreases s.len(),
{
    reveal(pow);
    if s.len() == 1 {
        assert(s.drop_first() =~= Seq::<char>::empty());
        assert(pow(radix as int, 0) == 1);
        assert(positional(Seq::<char>::empty(), radix) == 0);
        assert(positional(s, radix) == digit_val(s[0], radix) * pow(radix as int, 0) + positional(Seq::<char>::empty(), radix));
    } else {
        let t = s.drop_last();
        assert(digits_value(t, radix) is Some);
        lemma_digits_positional(t, radix);
        assert(t.push(s.last()) =~= s);
        lemma_positional_push(t, s.last(), radix);
        assert(digits_value(s, radix)->Some_0 == digits_value(t, radix)->Some_0 * radix + digit_val(s.last(), radix));
    }
}

} // verus!
