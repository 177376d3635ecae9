//! Decimal numerals: what numbers look like in text, and what numbers texts stand for.

use vstd::prelude::*;
use vstd::slice::slice_subrange;

verus! {

/// The digit for `d`.
pub open spec fn digit_of(d: int) -> char
    recommends
        0 <= d <= 9,
{
    (d + '0' as int) as char
}

/// Whether `c` is one of `0` to `9`.
pub open spec fn is_digit(c: char) -> bool {
    '0' <= c <= '9'
}

/// The number that the digit `c` stands for.
pub open spec fn digit_value(c: char) -> int {
    c as int - '0' as int
}

/// The decimal numeral of `n`, without leading zeros.
pub open spec fn decimal_of(n: nat) -> Seq<char>
    decreases n,
{
    if n < 10 {
        seq![digit_of(n as int)]
    } else {
        decimal_of(n / 10).push(digit_of(n as int % 10))
    }
}

/// The decimal numeral of `i`, with a minus sign where it is negative.
pub open spec fn signed_decimal_of(i: int) -> Seq<char> {
    if i < 0 {
        seq!['-'] + decimal_of((-i) as nat)
    } else {
        decimal_of(i as nat)
    }
}

/// Whether `s` is made of digits, at least one.
pub open spec fn all_digits(s: Seq<char>) -> bool {
    s.len() > 0 && forall|i: int| 0 <= i < s.len() ==> is_digit(#[trigger] s[i])
}

/// The number that the digits of `s` stand for.
pub open spec fn value_of(s: Seq<char>) -> int
    decreases s.len(),
{
    if s.len() == 0 {
        0
    } else {
        value_of(s.drop_last()) * 10 + digit_value(s.last())
    }
}

/// The number up to `max` that `s` stands for: digits, after a plus sign at will.
pub open spec fn unsigned_of(s: Seq<char>, max: int) -> Option<int> {
    let digits = if s.len() > 0 && s[0] == '+' {
        s.skip(1)
    } else {
        s
    };
    if all_digits(digits) && value_of(digits) <= max {
        Some(value_of(digits))
    } else {
        None
    }
}

/// The number from `i32::MIN` to `i32::MAX` that `s` stands for: digits, after a sign at will.
pub open spec fn signed_of(s: Seq<char>) -> Option<int> {
    if s.len() > 0 && s[0] == '-' {
        let digits = s.skip(1);
        if all_digits(digits) && -value_of(digits) >= i32::MIN {
            Some(-value_of(digits))
        } else {
            None
        }
    } else {
        unsigned_of(s, i32::MAX as int)
    }
}

/// The digit for `d`.
fn digit(d: u8) -> (c: char)
    requires
        d <= 9,
    ensures
        c == digit_of(d as int),
{
    (48 + d) as char
}

/// The decimal numeral of `n`.
pub fn decimal(n: u64) -> (r: String)
    ensures
        r@ == decimal_of(n as nat),
    decreases n,
{
    let mut out = if n < 10 {
        String::new()
    } else {
        decimal(n / 10)
    };
    out.push(digit((n % 10) as u8));
    assert(n < 10 ==> out@ =~= decimal_of(n as nat));
    out
}

/// The decimal numeral of `i`.
pub fn signed_decimal(i: i32) -> (r: String)
    ensures
        r@ == signed_decimal_of(i as int),
{
    if i < 0 {
        let mut out = String::new();
        out.push('-');
        let digits = decimal((-(i as i64)) as u64);
        out.append(digits.as_str());
        assert(out@ =~= signed_decimal_of(i as int));
        out
    } else {
        decimal(i as u64)
    }
}

/// Digits stand for no number below zero.
proof fn lemma_value_bounds(s: Seq<char>)
    requires
        forall|i: int| 0 <= i < s.len() ==> is_digit(#[trigger] s[i]),
    ensures
        value_of(s) >= 0,
    decreases s.len(),
{
    if s.len() > 0 {
        lemma_value_bounds(s.drop_last());
    }
}

/// The number of the first `n` digits is no greater than that of all of them.
proof fn lemma_value_prefix(s: Seq<char>, n: int)
    requires
        0 <= n <= s.len(),
        forall|i: int| 0 <= i < s.len() ==> is_digit(#[trigger] s[i]),
    ensures
        value_of(s.take(n)) <= value_of(s),
    decreases s.len(),
{
    if n == s.len() {
        assert(s.take(n) =~= s);
    } else {
        lemma_value_prefix(s.drop_last(), n);
        lemma_value_bounds(s.drop_last());
        assert(s.drop_last().take(n) =~= s.take(n));
    }
}

/// The number up to `max` that the digits of `s` stand for.
fn parse_digits(s: &[char], max: u64) -> (r: Option<u64>)
    ensures
        match r {
            Some(v) => all_digits(s@) && v == value_of(s@) && v <= max,
            None => !all_digits(s@) || value_of(s@) > max,
        },
{
    if s.len() == 0 {
        return None;
    }
    let mut value: u64 = 0;
    let mut i: usize = 0;
    while i < s.len()
        invariant
            i <= s@.len(),
            value <= max,
            value == value_of(s@.take(i as int)),
            forall|k: int| 0 <= k < i ==> is_digit(#[trigger] s@[k]),
        decreases s@.len() - i,
    {
        let c = s[i];
        if c < '0' || '9' < c {
            assert(!is_digit(s@[i as int]));
            return None;
        }
        let d: u32 = c as u32 - 48;
        let next: u128 = value as u128 * 10 + d as u128;
        proof {
            let longer = s@.take(i + 1);
            assert(longer.drop_last() =~= s@.take(i as int));
            assert(value_of(longer) == next);
            if all_digits(s@) {
                lemma_value_prefix(s@, i + 1);
            }
        }
        if next > max as u128 {
            return None;
        }
        value = next as u64;
        i += 1;
    }
    assert(s@.take(s@.len() as int) =~= s@);
    Some(value)
}

/// The number up to `max` that `s` stands for, as the standard library's unsigned types parse it.
pub fn parse_unsigned(s: &[char], max: u64) -> (r: Option<u64>)
    ensures
        match r {
            Some(v) => unsigned_of(s@, max as int) == Some(v as int),
            None => unsigned_of(s@, max as int) is None,
        },
{
    if s.len() > 0 && s[0] == '+' {
        let digits = slice_subrange(s, 1, s.len());
        assert(digits@ =~= s@.skip(1));
        parse_digits(digits, max)
    } else {
        parse_digits(s, max)
    }
}

/// The 32-bit number that `s` stands for, as the standard library parses an `i32`.
pub fn parse_i32(s: &[char]) -> (r: Option<i32>)
    ensures
        match r {
            Some(v) => signed_of(s@) == Some(v as int),
            None => signed_of(s@) is None,
        },
{
    if s.len() > 0 && s[0] == '-' {
        let digits = slice_subrange(s, 1, s.len());
        assert(digits@ =~= s@.skip(1));
        match parse_digits(digits, 2147483648) {
            Some(v) => Some((-(v as i64)) as i32),
            None => None,
        }
    } else {
        match parse_unsigned(s, 2147483647) {
            Some(v) => Some(v as i32),
            None => None,
        }
    }
}

/// A decimal numeral is made of digits and stands for its number.
pub proof fn lemma_decimal(n: nat)
    ensures
        all_digits(decimal_of(n)),
        value_of(decimal_of(n)) == n,
    decreases n,
{
    if n < 10 {
        assert(decimal_of(n).drop_last() =~= Seq::<char>::empty());
        assert(value_of(Seq::<char>::empty()) == 0);
    } else {
        lemma_decimal(n / 10);
        assert(decimal_of(n).drop_last() =~= decimal_of(n / 10));
    }
}

/// Reading back the numeral of an unsigned number gives the number.
pub proof fn law_unsigned_round_trip(n: nat, max: nat)
    requires
        n <= max,
    ensures
        unsigned_of(decimal_of(n), max as int) == Some(n as int),
{
    lemma_decimal(n);
    assert(is_digit(decimal_of(n)[0]));
}

/// Reading back the numeral of a 32-bit number gives the number.
pub proof fn law_signed_round_trip(i: i32)
    ensures
        signed_of(signed_decimal_of(i as int)) == Some(i as int),
{
    if i < 0 {
        lemma_decimal((-i) as nat);
        assert(signed_decimal_of(i as int).skip(1) =~= decimal_of((-i) as nat));
    } else {
        law_unsigned_round_trip(i as nat, i32::MAX as nat);
        lemma_decimal(i as nat);
        assert(is_digit(decimal_of(i as nat)[0]));
    }
}

/// Text with anything but digits in it stands for no number, but for a plus sign at its head; nor
/// does empty text, and nor does the numeral of a number that is too great.
pub proof fn law_unsigned_rejects(s: Seq<char>, i: int, n: nat, max: nat)
    requires
        0 <= i < s.len(),
        !is_digit(s[i]),
        i > 0 || s[i] != '+',
        n > max,
    ensures
        unsigned_of(s, max as int) is None,
        unsigned_of(Seq::empty(), max as int) is None,
        unsigned_of(seq!['+'], max as int) is None,
        unsigned_of(decimal_of(n), max as int) is None,
{
    lemma_decimal(n);
    assert(is_digit(decimal_of(n)[0]));
    if s[0] == '+' {
        assert(s.skip(1)[i - 1] == s[i]);
    }
}

/// A plus sign before a numeral makes no difference, and neither do zeros.
pub proof fn law_unsigned_same(n: nat, max: nat)
    requires
        n <= max,
    ensures
        unsigned_of(seq!['+'] + decimal_of(n), max as int) == Some(n as int),
        unsigned_of(seq!['0'] + decimal_of(n), max as int) == Some(n as int),
{
    lemma_decimal(n);
    let digits = decimal_of(n);
    assert((seq!['+'] + digits).skip(1) =~= digits);
    let longer = seq!['0'] + digits;
    lemma_leading_zero(digits);
    assert forall|i: int| 0 <= i < longer.len() implies is_digit(#[trigger] longer[i]) by {
        if i > 0 {
            assert(longer[i] == digits[i - 1]);
        }
    }
}

/// A zero at the head of digits does not change their number.
proof fn lemma_leading_zero(digits: Seq<char>)
    ensures
        value_of(seq!['0'] + digits) == value_of(digits),
    decreases digits.len(),
{
    let longer = seq!['0'] + digits;
    if digits.len() == 0 {
        assert(longer.drop_last() =~= Seq::<char>::empty());
        assert(value_of(longer.drop_last()) == 0);
    } else {
        lemma_leading_zero(digits.drop_last());
        assert(longer.drop_last() =~= seq!['0'] + digits.drop_last());
    }
}

/// A minus sign alone, a sign behind another, and what is beyond 32 bits stand for no status.
pub proof fn law_signed_rejects(n: nat)
    ensures
        signed_of(seq!['-']) is None,
        signed_of(Seq::empty()) is None,
        n > i32::MAX ==> signed_of(decimal_of(n)) is None,
        n > i32::MAX + 1 ==> signed_of(seq!['-'] + decimal_of(n)) is None,
        signed_of(seq!['-', '-'] + decimal_of(n)) is None,
        signed_of(seq!['-', '+'] + decimal_of(n)) is None,
{
    lemma_decimal(n);
    let digits = decimal_of(n);
    assert(is_digit(digits[0]));
    assert(seq!['-'].skip(1).len() == 0);
    assert((seq!['-'] + digits).skip(1) =~= digits);
    assert((seq!['-', '-'] + digits).skip(1)[0] == '-');
    assert((seq!['-', '+'] + digits).skip(1)[0] == '+');
}

} // verus!
