//! How far runs have come.
//!
//! A percentage with a fraction is held as the bits of the 32-bit float that shows it. Of floats
//! that are not negative the greater has the greater bits.

use crate::managers::{place_of, ManagerId, MANAGER_COUNT};
use crate::number::{
    all_digits, decimal_of, is_digit, lemma_decimal, parse_unsigned, unsigned_of, value_of,
};
use crate::text::{
    chars_of, find, find_of, is_blank, is_tight, lacks, law_trim, lemma_find, lemma_find_is, trim,
    trim_of, trim_start, trim_start_of,
};
use vstd::prelude::*;
use vstd::slice::slice_subrange;

verus! {

/// `s` up to its last digit.
pub open spec fn up_to_digit(s: Seq<char>) -> Seq<char>
    decreases s.len(),
{
    if s.len() > 0 && !is_digit(s.last()) {
        up_to_digit(s.drop_last())
    } else {
        s
    }
}

/// The digits at the end of `s`.
pub open spec fn digits_at_end(s: Seq<char>) -> Seq<char>
    decreases s.len(),
{
    if s.len() > 0 && is_digit(s.last()) {
        digits_at_end(s.drop_last()).push(s.last())
    } else {
        Seq::empty()
    }
}

/// `s` from its first digit on.
pub open spec fn from_digit(s: Seq<char>) -> Seq<char>
    decreases s.len(),
{
    if s.len() > 0 && !is_digit(s[0]) {
        from_digit(s.skip(1))
    } else {
        s
    }
}

/// The digits at the beginning of `s`.
pub open spec fn digits_at_start(s: Seq<char>) -> Seq<char>
    decreases s.len(),
{
    if s.len() > 0 && is_digit(s[0]) {
        seq![s[0]] + digits_at_start(s.skip(1))
    } else {
        Seq::empty()
    }
}

/// The last run of digits in `s`; empty where there is none.
pub open spec fn digits_left_of(s: Seq<char>) -> Seq<char> {
    digits_at_end(up_to_digit(s))
}

/// The first run of digits in `s`; empty where there is none.
pub open spec fn digits_right_of(s: Seq<char>) -> Seq<char> {
    digits_at_start(from_digit(s))
}

/// Whether `c` is one of `0` to `9`.
fn digit(c: char) -> (r: bool)
    ensures
        r == is_digit(c),
{
    '0' <= c && c <= '9'
}

/// The last run of digits in `s`.
pub fn extract_digits_left(s: &[char]) -> (r: Option<&[char]>)
    ensures
        match r {
            Some(d) => d@ == digits_left_of(s@) && d@.len() > 0,
            None => digits_left_of(s@).len() == 0,
        },
{
    let mut end: usize = s.len();
    assert(s@.take(end as int) =~= s@);
    while end > 0 && !digit(s[end - 1])
        invariant
            end <= s@.len(),
            up_to_digit(s@) == up_to_digit(s@.take(end as int)),
        decreases end,
    {
        assert(s@.take(end as int).drop_last() =~= s@.take(end - 1));
        end -= 1;
    }
    let ghost head = s@.take(end as int);
    let mut start: usize = end;
    assert(digits_at_end(head) =~= digits_at_end(s@.take(end as int)) + s@.subrange(
        end as int,
        end as int,
    ));
    while start > 0 && digit(s[start - 1])
        invariant
            start <= end <= s@.len(),
            digits_at_end(head) == digits_at_end(s@.take(start as int)) + s@.subrange(
                start as int,
                end as int,
            ),
        decreases start,
    {
        let ghost front = s@.take(start as int);
        assert(front.drop_last() =~= s@.take(start - 1));
        assert(digits_at_end(s@.take(start - 1)).push(front.last()) + s@.subrange(
            start as int,
            end as int,
        ) =~= digits_at_end(s@.take(start - 1)) + s@.subrange(start - 1, end as int));
        start -= 1;
    }
    assert(digits_at_end(head) =~= s@.subrange(start as int, end as int));
    if start == end {
        None
    } else {
        Some(slice_subrange(s, start, end))
    }
}

/// The first run of digits in `s`.
pub fn extract_digits_right(s: &[char]) -> (r: Option<&[char]>)
    ensures
        match r {
            Some(d) => d@ == digits_right_of(s@) && d@.len() > 0,
            None => digits_right_of(s@).len() == 0,
        },
{
    let size: usize = s.len();
    let mut start: usize = 0;
    assert(s@.skip(0) =~= s@);
    while start < size && !digit(s[start])
        invariant
            size == s@.len(),
            start <= size,
            from_digit(s@) == from_digit(s@.skip(start as int)),
        decreases size - start,
    {
        assert(s@.skip(start as int).skip(1) =~= s@.skip(start + 1));
        start += 1;
    }
    let ghost tail = s@.skip(start as int);
    let mut end: usize = start;
    assert(digits_at_start(tail) =~= s@.subrange(start as int, end as int) + digits_at_start(
        s@.skip(end as int),
    ));
    while end < size && digit(s[end])
        invariant
            size == s@.len(),
            start <= end <= size,
            digits_at_start(tail) == s@.subrange(start as int, end as int) + digits_at_start(
                s@.skip(end as int),
            ),
        decreases size - end,
    {
        let ghost rest = s@.skip(end as int);
        assert(rest.skip(1) =~= s@.skip(end + 1));
        assert(s@.subrange(start as int, end as int) + (seq![rest[0]] + digits_at_start(
            s@.skip(end + 1),
        )) =~= s@.subrange(start as int, end + 1) + digits_at_start(s@.skip(end + 1)));
        end += 1;
    }
    assert(digits_at_start(tail) =~= s@.subrange(start as int, end as int));
    if start == end {
        None
    } else {
        Some(slice_subrange(s, start, end))
    }
}

/// The two numbers next to the first slash of `s`, as in `(12/34)`.
pub open spec fn ratio_of(s: Seq<char>) -> Option<(int, int)> {
    let slash = find_of(s, '/');
    if slash < s.len() {
        match (
            unsigned_of(digits_left_of(s.take(slash)), u32::MAX as int),
            unsigned_of(digits_right_of(s.skip(slash + 1)), u32::MAX as int),
        ) {
            (Some(left), Some(right)) => Some((left, right)),
            _ => None,
        }
    } else {
        None
    }
}

/// The two numbers next to the first slash of `s`.
pub fn parse_ratio_near_slash(s: &[char]) -> (r: Option<(u32, u32)>)
    ensures
        match r {
            Some((left, right)) => ratio_of(s@) == Some((left as int, right as int)),
            None => ratio_of(s@) is None,
        },
{
    let size: usize = s.len();
    let slash: usize = find(s, '/');
    if slash >= size {
        return None;
    }
    let before = slice_subrange(s, 0, slash);
    let after = slice_subrange(s, slash + 1, size);
    assert(before@ =~= s@.take(slash as int));
    assert(after@ =~= s@.skip(slash + 1));
    let left = match extract_digits_left(before) {
        Some(digits) => parse_unsigned(digits, u32::MAX as u64),
        None => None,
    };
    let right = match extract_digits_right(after) {
        Some(digits) => parse_unsigned(digits, u32::MAX as u64),
        None => None,
    };
    match (left, right) {
        (Some(l), Some(r)) => Some((l as u32, r as u32)),
        _ => None,
    }
}

/// Whether no character of `s` is a digit.
pub open spec fn no_digits(s: Seq<char>) -> bool {
    forall|i: int| 0 <= i < s.len() ==> !is_digit(#[trigger] s[i])
}

/// A numeral that is not followed by more digits is the last run of digits.
proof fn lemma_digits_left(before: Seq<char>, digits: Seq<char>, gap: Seq<char>)
    requires
        before.len() > 0 ==> !is_digit(before[before.len() - 1]),
        all_digits(digits),
        no_digits(gap),
    ensures
        digits_left_of(before + digits + gap) == digits,
        digits_left_of(gap).len() == 0,
    decreases gap.len(),
{
    let s = before + digits + gap;
    if gap.len() > 0 {
        let rest = gap.drop_last();
        assert forall|i: int| 0 <= i < rest.len() implies !is_digit(#[trigger] rest[i]) by {
            assert(rest[i] == gap[i]);
        }
        lemma_digits_left(before, digits, rest);
        assert(s.last() == gap[gap.len() - 1]);
        assert(s.drop_last() =~= before + digits + rest);
    } else {
        assert(s =~= before + digits);
        assert(s.last() == digits[digits.len() - 1]);
        lemma_digits_at_end(before, digits);
    }
}

/// Digits behind what does not end with one are the digits at the end.
proof fn lemma_digits_at_end(before: Seq<char>, digits: Seq<char>)
    requires
        before.len() > 0 ==> !is_digit(before[before.len() - 1]),
        forall|i: int| 0 <= i < digits.len() ==> is_digit(#[trigger] digits[i]),
    ensures
        digits_at_end(before + digits) == digits,
    decreases digits.len(),
{
    let s = before + digits;
    if digits.len() > 0 {
        let front = digits.drop_last();
        assert forall|i: int| 0 <= i < front.len() implies is_digit(#[trigger] front[i]) by {
            assert(front[i] == digits[i]);
        }
        lemma_digits_at_end(before, front);
        assert(s.last() == digits[digits.len() - 1]);
        assert(s.drop_last() =~= before + front);
        assert(front.push(digits.last()) =~= digits);
    } else {
        assert(s =~= before);
        assert(digits_at_end(s) =~= digits);
    }
}

/// A numeral that does not follow other digits is the first run of digits.
proof fn lemma_digits_right(gap: Seq<char>, digits: Seq<char>, behind: Seq<char>)
    requires
        no_digits(gap),
        all_digits(digits),
        behind.len() > 0 ==> !is_digit(behind[0]),
    ensures
        digits_right_of(gap + digits + behind) == digits,
        digits_right_of(gap).len() == 0,
    decreases gap.len(),
{
    let s = gap + digits + behind;
    if gap.len() > 0 {
        let rest = gap.skip(1);
        assert forall|i: int| 0 <= i < rest.len() implies !is_digit(#[trigger] rest[i]) by {
            assert(rest[i] == gap[i + 1]);
        }
        lemma_digits_right(rest, digits, behind);
        assert(s[0] == gap[0]);
        assert(s.skip(1) =~= rest + digits + behind);
    } else {
        assert(s =~= digits + behind);
        assert(s[0] == digits[0]);
        lemma_digits_at_start(digits, behind);
    }
}

/// Digits before what does not begin with one are the digits at the beginning.
proof fn lemma_digits_at_start(digits: Seq<char>, behind: Seq<char>)
    requires
        forall|i: int| 0 <= i < digits.len() ==> is_digit(#[trigger] digits[i]),
        behind.len() > 0 ==> !is_digit(behind[0]),
    ensures
        digits_at_start(digits + behind) == digits,
    decreases digits.len(),
{
    let s = digits + behind;
    if digits.len() > 0 {
        let rest = digits.skip(1);
        assert forall|i: int| 0 <= i < rest.len() implies is_digit(#[trigger] rest[i]) by {
            assert(rest[i] == digits[i + 1]);
        }
        lemma_digits_at_start(rest, behind);
        assert(s[0] == digits[0]);
        assert(s.skip(1) =~= rest + behind);
        assert(seq![digits[0]] + rest =~= digits);
    } else {
        assert(s =~= behind);
        assert(digits_at_start(s) =~= digits);
    }
}

/// The ratio is made of the numerals that are next to the first slash on either side, whatever
/// comes before the one and behind the other, and however far they are from the slash. Where one
/// of them stands for a number that is too great, there is none.
pub proof fn law_ratio_of_numerals(
    before: Seq<char>,
    left: Seq<char>,
    gap: Seq<char>,
    other_gap: Seq<char>,
    right: Seq<char>,
    behind: Seq<char>,
)
    requires
        lacks(before, '/'),
        before.len() > 0 ==> !is_digit(before[before.len() - 1]),
        all_digits(left),
        lacks(gap, '/'),
        no_digits(gap),
        no_digits(other_gap),
        all_digits(right),
        behind.len() > 0 ==> !is_digit(behind[0]),
    ensures
        ratio_of(before + left + gap + seq!['/'] + other_gap + right + behind) == if value_of(left)
            <= u32::MAX && value_of(right) <= u32::MAX {
            Some((value_of(left), value_of(right)))
        } else {
            None
        },
{
    let head = before + left + gap;
    let tail = other_gap + right + behind;
    let s = before + left + gap + seq!['/'] + other_gap + right + behind;
    let n = head.len() as int;
    assert(s =~= head + seq!['/'] + tail);
    assert forall|j: int| 0 <= j < n implies s[j] != '/' by {
        if j < before.len() {
            assert(s[j] == before[j]);
        } else if j < before.len() + left.len() {
            assert(s[j] == left[j - before.len()]);
        } else {
            assert(s[j] == gap[j - before.len() - left.len()]);
        }
    }
    lemma_find_is(s, '/', n);
    assert(s.take(n) =~= head);
    assert(s.skip(n + 1) =~= tail);
    lemma_digits_left(before, left, gap);
    lemma_digits_right(other_gap, right, behind);
    assert(is_digit(left[0]) && is_digit(right[0]));
}

/// A line with `current/total` gives these two numbers, whatever digits and slashes come behind
/// them: `(1/20)` is one of twenty.
pub proof fn law_ratio_read_back(before: Seq<char>, current: u32, total: u32, behind: Seq<char>)
    requires
        lacks(before, '/'),
        before.len() > 0 ==> !is_digit(before[before.len() - 1]),
        behind.len() > 0 ==> !is_digit(behind[0]),
    ensures
        ratio_of(
            before + decimal_of(current as nat) + seq!['/'] + decimal_of(total as nat) + behind,
        ) == Some((current as int, total as int)),
{
    let none = Seq::<char>::empty();
    let left = decimal_of(current as nat);
    let right = decimal_of(total as nat);
    lemma_decimal(current as nat);
    lemma_decimal(total as nat);
    law_ratio_of_numerals(before, left, none, none, right, behind);
    assert(before + left + none + seq!['/'] + none + right + behind =~= before + left + seq!['/']
        + right + behind);
}

/// There is no ratio without a slash, and none where no digit comes before the first slash or no
/// digit comes behind it.
pub proof fn law_no_ratio(before: Seq<char>, behind: Seq<char>)
    requires
        lacks(before, '/'),
    ensures
        ratio_of(before) is None,
        no_digits(before) ==> ratio_of(before + seq!['/'] + behind) is None,
        no_digits(behind) ==> ratio_of(before + seq!['/'] + behind) is None,
{
    let s = before + seq!['/'] + behind;
    let n = before.len() as int;
    lemma_find_is(before, '/', n);
    assert forall|j: int| 0 <= j < n implies s[j] != '/' by {
        assert(s[j] == before[j]);
    }
    lemma_find_is(s, '/', n);
    assert(s.take(n) =~= before);
    assert(s.skip(n + 1) =~= behind);
    let none = Seq::<char>::empty();
    let one = seq!['1'];
    assert(all_digits(one));
    if no_digits(before) {
        lemma_digits_left(none, one, before);
    }
    if no_digits(behind) {
        lemma_digits_right(behind, one, none);
    }
}

/// Whether a line tells of a download: what comes behind its leading white space is a bracket.
pub open spec fn download_line(line: Seq<char>) -> bool {
    let rest = trim_start_of(line);
    rest.len() > 0 && rest[0] == '('
}

/// Whether a line tells of a download.
pub fn is_download_ratio_line(line: &[char]) -> (r: bool)
    ensures
        r == download_line(line@),
{
    let rest = trim_start(line);
    rest.len() > 0 && rest[0] == '('
}

/// The bits of a hundred percent.
pub const HUNDRED_BITS: u32 = 0x42c8_0000;

/// The bits of what is greater than every number.
pub const INFINITY_BITS: u32 = 0x7f80_0000;

/// The bits of nothing with a minus sign, the least of those of floats with one.
pub const MINUS_BITS: u32 = 0x8000_0000;

/// The bits of a float, held between nothing and a hundred. What is not a number stays, and so
/// does nothing with a minus sign.
pub open spec fn clamped_of(bits: u32) -> u32 {
    if HUNDRED_BITS < bits <= INFINITY_BITS {
        HUNDRED_BITS
    } else if MINUS_BITS < bits <= MINUS_BITS + INFINITY_BITS {
        0
    } else {
        bits
    }
}

/// The bits of a float, held between nothing and a hundred.
pub fn clamp_percentage(bits: u32) -> (r: u32)
    ensures
        r == clamped_of(bits),
{
    if HUNDRED_BITS < bits && bits <= INFINITY_BITS {
        HUNDRED_BITS
    } else if MINUS_BITS < bits && bits <= MINUS_BITS + INFINITY_BITS {
        0
    } else {
        bits
    }
}

/// The bits of a percentage no greater than a hundred; what is no number above nothing counts as
/// nothing.
pub open spec fn capped_of(bits: u32) -> u32 {
    if bits <= HUNDRED_BITS {
        bits
    } else if bits <= INFINITY_BITS {
        HUNDRED_BITS
    } else {
        0
    }
}

/// The bits of a percentage no greater than a hundred.
fn cap_percentage(bits: u32) -> (r: u32)
    ensures
        r == capped_of(bits),
{
    if bits <= HUNDRED_BITS {
        bits
    } else if bits <= INFINITY_BITS {
        HUNDRED_BITS
    } else {
        0
    }
}

/// What a report puts into the tracker is between nothing and a hundred percent, unless it is no
/// number; nothing with a minus sign is nothing too. A report between nothing and a hundred stays
/// as it is, one above a hundred becomes a hundred, and one below nothing becomes nothing.
pub proof fn law_clamped(bits: u32)
    ensures
        ({
            let r = clamped_of(bits);
            let not_a_number = INFINITY_BITS < bits < MINUS_BITS || bits > MINUS_BITS
                + INFINITY_BITS;
            r <= HUNDRED_BITS || r == MINUS_BITS || not_a_number
        }),
        bits <= HUNDRED_BITS ==> clamped_of(bits) == bits,
        HUNDRED_BITS <= bits <= INFINITY_BITS ==> clamped_of(bits) == HUNDRED_BITS,
        MINUS_BITS < bits <= MINUS_BITS + INFINITY_BITS ==> clamped_of(bits) == 0,
{
}

/// How many of how many parts are done.
#[derive(Clone, Copy, Debug, PartialEq, Eq, Structural)]
pub struct Ratio {
    pub current: u32,
    pub total: u32,
}

/// A percentage: `base` and that part of `span` which `ratio` tells.
#[derive(Clone, Copy, Debug, PartialEq, Eq, Structural)]
pub struct Percentage {
    pub base: u32,
    pub span: u32,
    pub ratio: Ratio,
}

impl Ratio {
    /// Whether there are parts, and no more are done than there are.
    pub open spec fn wf(self) -> bool {
        self.current <= self.total && self.total > 0
    }
}

/// What a line tells: whether of a download, and how many of how many parts are done.
pub open spec fn line_ratio_of(line: Seq<char>) -> Option<(bool, Ratio)> {
    let trimmed = trim_of(line);
    match ratio_of(trimmed) {
        Some((current, total)) => if total == 0 {
            None
        } else {
            Some(
                (
                    download_line(trimmed),
                    Ratio {
                        current: if current <= total {
                            current as u32
                        } else {
                            total as u32
                        },
                        total: total as u32,
                    },
                ),
            )
        },
        None => None,
    }
}

/// The percentage that the ratios make. Downloads are the first 60 percent, and what follows
/// them is the rest; where nothing was downloaded, it is everything.
pub open spec fn percentage_of(
    download: Option<Ratio>,
    transaction: Option<Ratio>,
) -> Option<Percentage> {
    match (download, transaction) {
        (Some(_), Some(ratio)) => Some(Percentage { base: 60, span: 40, ratio }),
        (None, Some(ratio)) => Some(Percentage { base: 0, span: 100, ratio }),
        (Some(ratio), None) => Some(Percentage { base: 0, span: 60, ratio }),
        (None, None) => None,
    }
}

/// A line that tells of `current` of `total` parts gives that ratio, with no more parts done than
/// there are; it tells of a download where it begins with a bracket. White space at its ends makes
/// no difference, and neither does what comes behind the numbers.
pub proof fn law_line_ratio(
    white: Seq<char>,
    before: Seq<char>,
    current: u32,
    total: u32,
    behind: Seq<char>,
    more_white: Seq<char>,
)
    requires
        is_blank(white),
        is_blank(more_white),
        is_tight(
            before + decimal_of(current as nat) + seq!['/'] + decimal_of(total as nat) + behind,
        ),
        lacks(before, '/'),
        before.len() > 0 ==> !is_digit(before[before.len() - 1]),
        behind.len() > 0 ==> !is_digit(behind[0]),
    ensures
        line_ratio_of(
            white + (before + decimal_of(current as nat) + seq!['/'] + decimal_of(total as nat)
                + behind) + more_white,
        ) == if total == 0 {
            None
        } else {
            Some(
                (
                    before.len() > 0 && before[0] == '(',
                    Ratio {
                        current: if current < total {
                            current
                        } else {
                            total
                        },
                        total,
                    },
                ),
            )
        },
{
    let s = before + decimal_of(current as nat) + seq!['/'] + decimal_of(total as nat) + behind;
    law_trim(white, s, more_white);
    law_ratio_read_back(before, current, total, behind);
    lemma_decimal(current as nat);
    assert(trim_start_of(s) == s);
    if before.len() > 0 {
        assert(s[0] == before[0]);
    } else {
        assert(s[0] == decimal_of(current as nat)[0]);
        assert(is_digit(s[0]));
    }
}

/// Downloads fill the first 60 percent, and what follows them goes on from there to a hundred;
/// where nothing was downloaded, it goes from nothing to a hundred. What is done so far is shown
/// of the parts that were told of last, and without any nothing is shown.
pub proof fn law_percentage_scale(download: Ratio, transaction: Ratio)
    ensures
        percentage_of(Some(download), None) matches Some(p) && p.ratio == download && p.base == 0
            && p.base + p.span == 60,
        percentage_of(Some(download), Some(transaction)) matches Some(p) && p.ratio == transaction
            && p.base == 60 && p.base + p.span == 100,
        percentage_of(None, Some(transaction)) matches Some(p) && p.ratio == transaction && p.base
            == 0 && p.base + p.span == 100,
        percentage_of(None, None) is None,
{
}

/// The ratios of downloads and of what follows them, after one more line: a line that tells of one
/// of them replaces that one.
pub open spec fn ratios_after(
    download: Option<Ratio>,
    transaction: Option<Ratio>,
    line: Seq<char>,
) -> (Option<Ratio>, Option<Ratio>) {
    match line_ratio_of(line) {
        Some((true, ratio)) => (Some(ratio), transaction),
        Some((false, ratio)) => (download, Some(ratio)),
        None => (download, transaction),
    }
}

/// The percentage that a line tells, where it tells of one.
pub open spec fn told_by(
    download: Option<Ratio>,
    transaction: Option<Ratio>,
    line: Seq<char>,
) -> Option<Percentage> {
    let (d, t) = ratios_after(download, transaction, line);
    if line_ratio_of(line) is Some {
        percentage_of(d, t)
    } else {
        None
    }
}

/// A line that begins with `(current/total` tells of downloads, and any other with `current/total`
/// of what follows them: the one is part of the first 60 percent as long as nothing has followed,
/// and the other of what is left of a hundred. The other ratio stays as it was. A line without a
/// ratio tells nothing and changes nothing.
pub proof fn law_line_told(
    download: Option<Ratio>,
    transaction: Option<Ratio>,
    before: Seq<char>,
    current: u32,
    total: u32,
    behind: Seq<char>,
    other_line: Seq<char>,
)
    requires
        total > 0,
        current <= total,
        is_tight(
            before + decimal_of(current as nat) + seq!['/'] + decimal_of(total as nat) + behind,
        ),
        lacks(before, '/'),
        before.len() > 0 ==> !is_digit(before[before.len() - 1]),
        behind.len() > 0 ==> !is_digit(behind[0]),
        ratio_of(trim_of(other_line)) is None,
    ensures
        ({
            let line = before + decimal_of(current as nat) + seq!['/'] + decimal_of(total as nat)
                + behind;
            let ratio = Ratio { current, total };
            if before.len() > 0 && before[0] == '(' {
                &&& ratios_after(download, transaction, line) == (Some(ratio), transaction)
                &&& transaction is None ==> told_by(download, transaction, line) == Some(
                    Percentage { base: 0, span: 60, ratio },
                )
                &&& transaction matches Some(t) ==> told_by(download, transaction, line) == Some(
                    Percentage { base: 60, span: 40, ratio: t },
                )
            } else {
                &&& ratios_after(download, transaction, line) == (download, Some(ratio))
                &&& told_by(download, transaction, line) == Some(
                    if download is Some {
                        Percentage { base: 60, span: 40, ratio }
                    } else {
                        Percentage { base: 0, span: 100, ratio }
                    },
                )
            }
        }),
        ratios_after(download, transaction, other_line) == (download, transaction),
        told_by(download, transaction, other_line) is None,
{
    let none = Seq::<char>::empty();
    let line = before + decimal_of(current as nat) + seq!['/'] + decimal_of(total as nat) + behind;
    law_line_ratio(none, before, current, total, behind, none);
    assert(none + line + none =~= line);
    law_lines_without_ratio(other_line);
}

/// How far a run of `dnf` or `yum` has come.
#[derive(Debug)]
pub struct DnfYumProgress {
    pub download: Option<Ratio>,
    pub transaction: Option<Ratio>,
    /// The bits of the greatest percentage so far.
    pub last_progress: u32,
}

impl DnfYumProgress {
    /// Whether both ratios are, and the greatest percentage is no more than a hundred.
    pub open spec fn wf(&self) -> bool {
        &&& self.last_progress <= HUNDRED_BITS
        &&& self.download matches Some(ratio) ==> ratio.wf()
        &&& self.transaction matches Some(ratio) ==> ratio.wf()
    }

    /// A run that has not begun.
    pub fn new() -> (r: Self)
        ensures
            r.wf(),
            r.download is None,
            r.transaction is None,
            r.last_progress == 0,
    {
        DnfYumProgress { download: None, transaction: None, last_progress: 0 }
    }

    /// The percentage that the ratios make; it is no more than a hundred.
    pub fn compute_progress(&self) -> (r: Option<Percentage>)
        ensures
            r == percentage_of(self.download, self.transaction),
    {
        match self.transaction {
            Some(ratio) => if self.download.is_some() {
                Some(Percentage { base: 60, span: 40, ratio })
            } else {
                Some(Percentage { base: 0, span: 100, ratio })
            },
            None => match self.download {
                Some(ratio) => Some(Percentage { base: 0, span: 60, ratio }),
                None => None,
            },
        }
    }

    /// Takes a line of output, and gives the percentage where the line tells of one.
    pub fn update_from_line(&mut self, line: &str) -> (r: Option<Percentage>)
        requires
            old(self).wf(),
        ensures
            final(self).wf(),
            final(self).last_progress == old(self).last_progress,
            (final(self).download, final(self).transaction) == ratios_after(
                old(self).download,
                old(self).transaction,
                line@,
            ),
            r == told_by(old(self).download, old(self).transaction, line@),
            r is Some <==> line_ratio_of(line@) is Some,
    {
        let chars = chars_of(line);
        let trimmed = trim(&chars);
        let (current, total) = match parse_ratio_near_slash(trimmed) {
            Some(pair) => pair,
            None => {
                return None;
            },
        };
        if total == 0 {
            return None;
        }
        let ratio = Ratio {
            current: if current <= total {
                current
            } else {
                total
            },
            total,
        };
        if is_download_ratio_line(trimmed) {
            self.download = Some(ratio);
        } else {
            self.transaction = Some(ratio);
        }
        self.compute_progress()
    }

    /// Takes the bits of a percentage, and gives them, no greater than those of a hundred, where
    /// that is greater than all before it.
    pub fn raise(&mut self, progress: u32) -> (r: Option<u32>)
        requires
            old(self).wf(),
        ensures
            final(self).wf(),
            final(self).download == old(self).download,
            final(self).transaction == old(self).transaction,
            r == raised_of(old(self).last_progress, progress),
            final(self).last_progress == match r {
                Some(bits) => bits,
                None => old(self).last_progress,
            },
    {
        let capped: u32 = cap_percentage(progress);
        if capped > self.last_progress {
            self.last_progress = capped;
            Some(capped)
        } else {
            None
        }
    }
}

/// What is reported of a percentage after `last`.
pub open spec fn raised_of(last: u32, progress: u32) -> Option<u32> {
    if capped_of(progress) > last {
        Some(capped_of(progress))
    } else {
        None
    }
}

/// A percentage that well-formed ratios make is between nothing and a hundred; it is reckoned
/// here in parts of the total, so that it is exact.
pub proof fn law_percentage_bounded(download: Option<Ratio>, transaction: Option<Ratio>)
    requires
        download matches Some(ratio) ==> ratio.wf(),
        transaction matches Some(ratio) ==> ratio.wf(),
    ensures
        percentage_of(download, transaction) matches Some(p) ==> {
            &&& p.ratio.total > 0
            &&& 0 <= p.base * p.ratio.total + p.span * p.ratio.current <= 100 * p.ratio.total
        },
{
}

/// A line tells of nothing that is blank, has no slash, lacks a digit before or behind its first
/// slash, or has a total of none.
pub proof fn law_lines_without_ratio(line: Seq<char>)
    ensures
        ({
            let s = trim_of(line);
            let slash = find_of(s, '/');
            ||| s.len() == 0
            ||| !s.contains('/')
            ||| digits_left_of(s.take(slash)).len() == 0
            ||| digits_right_of(s.skip(slash + 1)).len() == 0
            ||| ratio_of(s) matches Some((_, total)) && total == 0
        }) ==> line_ratio_of(line) is None,
        ratio_of(trim_of(line)) is None ==> line_ratio_of(line) is None,
{
    let s = trim_of(line);
    let slash = find_of(s, '/');
    lemma_find(s, '/');
    if slash < s.len() {
        assert(s[slash] == '/');
        assert(s.contains('/'));
    }
}

/// The percentages that a run reports, out of those offered to it in turn.
pub open spec fn reported_of(last: u32, offered: Seq<u32>) -> Seq<u32>
    decreases offered.len(),
{
    if offered.len() == 0 {
        Seq::empty()
    } else {
        match raised_of(last, offered[0]) {
            Some(bits) => seq![bits] + reported_of(bits, offered.skip(1)),
            None => reported_of(last, offered.skip(1)),
        }
    }
}

/// Whether all of `s` are greater than `last`, and each is greater than those before it.
pub open spec fn rising_from(last: u32, s: Seq<u32>) -> bool {
    &&& forall|i: int| 0 <= i < s.len() ==> last < #[trigger] s[i]
    &&& forall|i: int, j: int| 0 <= i < j < s.len() ==> (#[trigger] s[i]) < #[trigger] s[j]
}

/// The percentages that a run reports never go back, and never pass a hundred: whatever is offered,
/// each is greater than the one before, and none is greater than a hundred.
pub proof fn law_reports_increase(last: u32, offered: Seq<u32>)
    ensures
        rising_from(last, reported_of(last, offered)),
        forall|i: int|
            0 <= i < reported_of(last, offered).len() ==> (#[trigger] reported_of(
                last,
                offered,
            )[i]) <= HUNDRED_BITS,
    decreases offered.len(),
{
    if offered.len() > 0 {
        let rest = offered.skip(1);
        if let Some(bits) = raised_of(last, offered[0]) {
            law_reports_increase(bits, rest);
            let r = reported_of(last, offered);
            let s = reported_of(bits, rest);
            assert forall|i: int| 0 <= i < r.len() implies last < #[trigger] r[i] && r[i]
                <= HUNDRED_BITS by {
                if i > 0 {
                    assert(r[i] == s[i - 1]);
                }
            }
            assert forall|i: int, j: int| 0 <= i < j < r.len() implies (#[trigger] r[i])
                < #[trigger] r[j] by {
                assert(r[j] == s[j - 1]);
                if i > 0 {
                    assert(r[i] == s[i - 1]);
                }
            }
        } else {
            law_reports_increase(last, rest);
        }
    }
}

/// No percentage that is offered is lost: in the end what has been reported, or was before, is as
/// great as each of them, and nothing is reported that was not offered, but for a hundred in place
/// of more.
pub proof fn law_reports_reach(last: u32, offered: Seq<u32>, i: int)
    requires
        last <= HUNDRED_BITS,
        0 <= i < offered.len(),
    ensures
        ({
            let r = reported_of(last, offered);
            let greatest = if r.len() > 0 {
                r[r.len() - 1]
            } else {
                last
            };
            &&& offered[i] <= HUNDRED_BITS ==> offered[i] <= greatest
            &&& HUNDRED_BITS < offered[i] <= INFINITY_BITS ==> greatest == HUNDRED_BITS
            &&& forall|k: int|
                #![trigger r[k]]
                0 <= k < r.len() ==> offered.contains(r[k]) || r[k] == HUNDRED_BITS
        }),
    decreases offered.len(),
{
    let r = reported_of(last, offered);
    let rest = offered.skip(1);
    let next = match raised_of(last, offered[0]) {
        Some(bits) => bits,
        None => last,
    };
    let s = reported_of(next, rest);
    law_reports_increase(next, rest);
    if s.len() > 0 {
        assert(next < s[s.len() - 1]);
        assert(s[s.len() - 1] <= HUNDRED_BITS);
        assert(r[r.len() - 1] == s[s.len() - 1]);
    }
    if i > 0 {
        law_reports_reach(next, rest, i - 1);
    } else if rest.len() > 0 {
        law_reports_reach(next, rest, 0);
    }
    assert forall|k: int| #![trigger r[k]] 0 <= k < r.len() implies offered.contains(r[k]) || r[k]
        == HUNDRED_BITS by {
        let shift = r.len() - s.len();
        if k < shift {
            assert(r[k] == capped_of(offered[0]));
            assert(offered.contains(offered[0]));
        } else {
            assert(r[k] == s[k - shift]);
            if rest.contains(s[k - shift]) {
                let j = rest.index_of(s[k - shift]);
                assert(offered[j + 1] == s[k - shift]);
            }
        }
    }
}

/// The least percentage that a run of unknown length shows.
pub const RUNNING_PROGRESS_MIN: u32 = 15;

/// The greatest percentage that a run of unknown length shows.
pub const RUNNING_PROGRESS_MAX: u32 = 85;

/// By how much it changes from one moment to the next.
pub const RUNNING_PROGRESS_STEP: u32 = 3;

/// After how much it begins again: up from the least to the greatest, and down.
pub const RUNNING_PROGRESS_CYCLE: u32 = 140;

/// How many milliseconds there are from one moment to the next.
pub const RUNNING_PROGRESS_TICK_MS: u64 = 120;

/// The phase at the next moment.
pub fn next_phase(phase: u32) -> (r: u32)
    requires
        phase < RUNNING_PROGRESS_CYCLE,
    ensures
        r == (phase + RUNNING_PROGRESS_STEP) % RUNNING_PROGRESS_CYCLE as int,
        r < RUNNING_PROGRESS_CYCLE,
{
    (phase + RUNNING_PROGRESS_STEP) % RUNNING_PROGRESS_CYCLE
}

/// The percentage that a phase shows: it rises from the least to the greatest and falls back.
pub open spec fn phase_value_of(phase: u32) -> int {
    let span = RUNNING_PROGRESS_MAX - RUNNING_PROGRESS_MIN;
    if phase <= span {
        RUNNING_PROGRESS_MIN + phase
    } else {
        RUNNING_PROGRESS_MIN + (RUNNING_PROGRESS_CYCLE - phase)
    }
}

/// The percentage that a phase shows.
pub fn running_progress_value(phase: u32) -> (r: u32)
    requires
        phase < RUNNING_PROGRESS_CYCLE,
    ensures
        r == phase_value_of(phase),
        RUNNING_PROGRESS_MIN <= r <= RUNNING_PROGRESS_MAX,
{
    let span: u32 = RUNNING_PROGRESS_MAX - RUNNING_PROGRESS_MIN;
    let offset: u32 = if phase <= span {
        phase
    } else {
        RUNNING_PROGRESS_CYCLE - phase
    };
    RUNNING_PROGRESS_MIN + offset
}

/// From one moment to the next the percentage shown moves by no more than one step.
pub proof fn law_phase_smooth(phase: u32)
    requires
        phase < RUNNING_PROGRESS_CYCLE,
    ensures
        ({
            let next = ((phase + RUNNING_PROGRESS_STEP) % RUNNING_PROGRESS_CYCLE as int) as u32;
            let change = phase_value_of(next) - phase_value_of(phase);
            -RUNNING_PROGRESS_STEP <= change <= RUNNING_PROGRESS_STEP
        }),
{
}

/// The percentage shown rises one by one from 15 to 85 in the first half of the cycle, and in the
/// second half falls back as it rose.
pub proof fn law_phase_shape(phase: u32)
    requires
        phase <= 70,
    ensures
        phase_value_of(phase) == 15 + phase,
        phase > 0 ==> phase_value_of((140 - phase) as u32) == phase_value_of(phase),
{
}

/// What to do with the percentage that a manager has reported.
#[derive(Clone, Copy, Debug, PartialEq, Eq, Structural)]
pub enum ProgressChange {
    /// Leave it.
    Keep,
    /// Report nothing done.
    Start,
    /// Forget it.
    Clear,
    /// Report a hundred.
    Complete,
}

/// The percentages once that of a manager has been changed.
pub open spec fn changed_of(
    values: Seq<Option<u32>>,
    id: ManagerId,
    change: ProgressChange,
) -> Seq<Option<u32>> {
    match change {
        ProgressChange::Keep => values,
        ProgressChange::Start => values.update(place_of(id), Some(0)),
        ProgressChange::Clear => values.update(place_of(id), None),
        ProgressChange::Complete => values.update(place_of(id), Some(HUNDRED_BITS)),
    }
}

/// A change touches the percentage of its manager alone: it is left, set to nothing done,
/// forgotten, or set to a hundred.
pub proof fn law_change_touches_one(
    values: Seq<Option<u32>>,
    id: ManagerId,
    change: ProgressChange,
    other: ManagerId,
)
    requires
        values.len() == MANAGER_COUNT,
    ensures
        changed_of(values, id, change).len() == MANAGER_COUNT,
        other != id ==> changed_of(values, id, change)[place_of(other)] == values[place_of(other)],
        changed_of(values, id, change)[place_of(id)] == match change {
            ProgressChange::Keep => values[place_of(id)],
            ProgressChange::Start => Some(0),
            ProgressChange::Clear => None,
            ProgressChange::Complete => Some(HUNDRED_BITS),
        },
{
    if other != id {
        assert(place_of(other) != place_of(id));
    }
}

/// The percentages that runs under way have reported, as bits.
#[derive(Debug)]
pub struct ProgressTracker {
    pub values: Vec<Option<u32>>,
}

impl Clone for ProgressTracker {
    fn clone(&self) -> (r: Self)
        ensures
            r.values@ == self.values@,
    {
        let mut values: Vec<Option<u32>> = Vec::new();
        let mut i: usize = 0;
        while i < self.values.len()
            invariant
                i <= self.values@.len(),
                values@ == self.values@.take(i as int),
            decreases self.values@.len() - i,
        {
            values.push(self.values[i]);
            assert(values@ =~= self.values@.take(i + 1));
            i += 1;
        }
        assert(values@ =~= self.values@);
        ProgressTracker { values }
    }
}

impl ProgressTracker {
    /// Whether there is a place for every manager.
    pub open spec fn wf(&self) -> bool {
        self.values@.len() == MANAGER_COUNT
    }

    /// What a manager has reported.
    pub open spec fn value_of(&self, id: ManagerId) -> Option<u32> {
        self.values@[place_of(id)]
    }

    /// What a manager has reported.
    pub fn get(&self, id: ManagerId) -> (r: Option<u32>)
        requires
            self.wf(),
        ensures
            r == self.value_of(id),
    {
        self.values[id.place()]
    }

    /// Notes what a manager reports, held between nothing and a hundred percent.
    pub fn report_progress(&mut self, id: ManagerId, value: u32)
        requires
            old(self).wf(),
        ensures
            final(self).wf(),
            final(self).values@ == old(self).values@.update(
                place_of(id),
                Some(clamped_of(value)),
            ),
    {
        let i: usize = id.place();
        self.values.set(i, Some(clamp_percentage(value)));
    }

    /// Changes what a manager has reported.
    pub fn change(&mut self, id: ManagerId, change: ProgressChange)
        requires
            old(self).wf(),
        ensures
            final(self).wf(),
            final(self).values@ == changed_of(old(self).values@, id, change),
    {
        match change {
            ProgressChange::Keep => {},
            ProgressChange::Start => self.report_progress(id, 0),
            ProgressChange::Clear => self.clear_progress(id),
            ProgressChange::Complete => self.report_progress(id, HUNDRED_BITS),
        }
    }

    /// Forgets what a manager has reported.
    pub fn clear_progress(&mut self, id: ManagerId)
        requires
            old(self).wf(),
        ensures
            final(self).wf(),
            final(self).values@ == old(self).values@.update(place_of(id), None),
    {
        let i: usize = id.place();
        self.values.set(i, None);
    }
}

/// A tracker to which nothing has been reported.
pub fn new_progress_tracker() -> (r: ProgressTracker)
    ensures
        r.wf(),
        forall|id: ManagerId| #[trigger] r.value_of(id) is None,
{
    ProgressTracker {
        values: vec![None, None, None, None, None, None, None, None, None, None],
    }
}


/// A percentage is reported if and only if it is greater than all before it; what is below nothing,
/// or is no number, is never reported.
pub proof fn law_raised(last: u32, bits: u32)
    requires
        last <= HUNDRED_BITS,
    ensures
        bits <= last ==> raised_of(last, bits) is None,
        last < bits <= HUNDRED_BITS ==> raised_of(last, bits) == Some(bits),
        HUNDRED_BITS < bits <= INFINITY_BITS && last < HUNDRED_BITS ==> raised_of(last, bits)
            == Some(HUNDRED_BITS),
        bits > INFINITY_BITS ==> raised_of(last, bits) is None,
        last == HUNDRED_BITS ==> raised_of(last, bits) is None,
{
}

} // verus!
