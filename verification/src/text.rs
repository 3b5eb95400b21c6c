//! Decimal numbers and the few byte-string operations that header parsing needs.

use vstd::arithmetic::power::{lemma_pow0, pow};
use vstd::prelude::*;

verus! {

/// The character of the decimal digit `d`.
pub open spec fn digit_char(d: nat) -> char {
    (48 + d) as char
}

/// `n` written in decimal, without leading zeros.
pub open spec fn decimal(n: nat) -> Seq<char>
    decreases n,
{
    if n < 10 {
        seq![digit_char(n)]
    } else {
        decimal(n / 10).push(digit_char(n % 10))
    }
}

/// `n` written in decimal, as ASCII bytes.
pub open spec fn decimal_bytes(n: nat) -> Seq<u8>
    decreases n,
{
    if n < 10 {
        seq![(48 + n) as u8]
    } else {
        decimal_bytes(n / 10).push((48 + n % 10) as u8)
    }
}

/// Whether every byte of `s` is an ASCII digit.
pub open spec fn all_digits(s: Seq<u8>) -> bool {
    forall|i: int| 0 <= i < s.len() ==> 48 <= #[trigger] s[i] <= 57
}

/// The number that the digits `s` denote, most significant digit first.
pub open spec fn digits_value(s: Seq<u8>) -> int
    decreases s.len(),
{
    if s.len() == 0 {
        0
    } else {
        10 * digits_value(s.drop_last()) + (s.last() - 48)
    }
}

/// `s` without a leading `+`.
pub open spec fn without_plus(s: Seq<u8>) -> Seq<u8> {
    if s.len() > 0 && s[0] == 43 {
        s.skip(1)
    } else {
        s
    }
}

/// What `s` denotes as a `u64`: an optional `+`, then at least one digit, within range.
pub open spec fn parsed_u64(s: Seq<u8>) -> Option<u64> {
    let digits = without_plus(s);
    if digits.len() > 0 && all_digits(digits) && digits_value(digits) <= u64::MAX {
        Some(digits_value(digits) as u64)
    } else {
        None
    }
}

/// The ASCII bytes that count as white space.
pub open spec fn is_space(b: u8) -> bool {
    9 <= b <= 13 || b == 32
}

/// `s` without its leading white space.
pub open spec fn trimmed_start(s: Seq<u8>) -> Seq<u8>
    decreases s.len(),
{
    if s.len() > 0 && is_space(s[0]) {
        trimmed_start(s.skip(1))
    } else {
        s
    }
}

/// `s` without its trailing white space.
pub open spec fn trimmed_end(s: Seq<u8>) -> Seq<u8>
    decreases s.len(),
{
    if s.len() > 0 && is_space(s.last()) {
        trimmed_end(s.drop_last())
    } else {
        s
    }
}

/// `s` without white space at either end.
pub open spec fn trimmed(s: Seq<u8>) -> Seq<u8> {
    trimmed_end(trimmed_start(s))
}

/// The index of the first `b` in `s`, or the length of `s` when there is none.
pub open spec fn first_index(s: Seq<u8>, b: u8) -> int
    decreases s.len(),
{
    if s.len() == 0 || s[0] == b {
        0
    } else {
        1 + first_index(s.skip(1), b)
    }
}

fn digit_str(d: u64) -> (r: &'static str)
    requires
        d < 10,
    ensures
        r@ == seq![digit_char(d as nat)],
{
    proof {
        reveal_strlit("0");
        reveal_strlit("1");
        reveal_strlit("2");
        reveal_strlit("3");
        reveal_strlit("4");
        reveal_strlit("5");
        reveal_strlit("6");
        reveal_strlit("7");
        reveal_strlit("8");
        reveal_strlit("9");
    }
    let r: &'static str = match d {
        0 => "0",
        1 => "1",
        2 => "2",
        3 => "3",
        4 => "4",
        5 => "5",
        6 => "6",
        7 => "7",
        8 => "8",
        _ => "9",
    };
    assert(r@ =~= seq![digit_char(d as nat)]);
    r
}

/// Appends `n` in decimal to `out`.
pub fn push_decimal(out: &mut String, n: u64)
    ensures
        final(out)@ == old(out)@ + decimal(n as nat),
    decreases n,
{
    if n >= 10 {
        push_decimal(out, n / 10);
    }
    let ghost before = out@;
    out.append(digit_str(n % 10));
    proof {
        let head = if n >= 10 { decimal((n / 10) as nat) } else { Seq::<char>::empty() };
        assert(before =~= old(out)@ + head);
        assert(decimal(n as nat) =~= head + seq![digit_char((n % 10) as nat)]);
        assert(out@ =~= old(out)@ + decimal(n as nat));
    }
}

proof fn lemma_digits_value_prefix(s: Seq<u8>, k: int)
    requires
        all_digits(s),
        0 <= k <= s.len(),
    ensures
        0 <= digits_value(s.take(k)) <= digits_value(s),
    decreases s.len() - k, k,
{
    if k == s.len() {
        assert(s.take(k) =~= s);
        lemma_digits_value_nonneg(s);
    } else {
        lemma_digits_value_prefix(s, k + 1);
        assert(s.take(k + 1).drop_last() =~= s.take(k));
        lemma_digits_value_nonneg(s.take(k));
    }
}

proof fn lemma_digits_value_nonneg(s: Seq<u8>)
    requires
        all_digits(s),
    ensures
        digits_value(s) >= 0,
    decreases s.len(),
{
    if s.len() > 0 {
        lemma_digits_value_nonneg(s.drop_last());
    }
}

/// Parses an unsigned decimal number as `str::parse::<u64>` does.
pub fn parse_u64(s: &[u8]) -> (r: Option<u64>)
    ensures
        r == parsed_u64(s@),
{
    let mut i: usize = 0;
    if s.len() > 0 && s[0] == 43 {
        i = 1;
    }
    let ghost digits = without_plus(s@);
    let ghost start = i as int;
    if i == s.len() {
        return None;
    }
    let mut value: u64 = 0;
    assert(digits.take(0).len() == 0);
    while i < s.len()
        invariant
            start <= i <= s.len(),
            0 <= start <= 1,
            digits == without_plus(s@),
            digits =~= s@.skip(start),
            digits.len() > 0,
            all_digits(digits.take(i - start)),
            value == digits_value(digits.take(i - start)),
        decreases s.len() - i,
    {
        let b: u8 = s[i];
        assert(digits[i - start] == b);
        if b < 48 || b > 57 {
            return None;
        }
        let ghost k = i - start;
        let d: u64 = (b - 48) as u64;
        assert(digits.take(k + 1).drop_last() =~= digits.take(k));
        if value > (u64::MAX - d) / 10 {
            proof {
                assert(10 * value + d > u64::MAX);
                if all_digits(digits) {
                    lemma_digits_value_prefix(digits, k + 1);
                }
            }
            return None;
        }
        value = value * 10 + d;
        i = i + 1;
    }
    assert(digits.take(i - start) =~= digits);
    Some(value)
}

/// Drops white space at both ends.
pub fn trim(s: &[u8]) -> (r: &[u8])
    ensures
        r@ == trimmed(s@),
{
    let mut start: usize = 0;
    assert(s@.skip(0) =~= s@);
    while start < s.len() && (s[start] == 32 || (9 <= s[start] && s[start] <= 13))
        invariant
            start <= s.len(),
            trimmed_start(s@.skip(start as int)) == trimmed_start(s@),
        decreases s.len() - start,
    {
        assert(s@.skip(start as int).skip(1) =~= s@.skip(start + 1));
        start = start + 1;
    }
    let ghost body = s@.skip(start as int);
    assert(trimmed_start(s@) == body);
    let mut end: usize = s.len();
    assert(body.take(end - start) =~= body);
    while start < end && (s[end - 1] == 32 || (9 <= s[end - 1] && s[end - 1] <= 13))
        invariant
            start <= end <= s.len(),
            body == s@.skip(start as int),
            trimmed_end(body.take(end - start)) == trimmed_end(body),
        decreases end,
    {
        assert(body.take(end - start).drop_last() =~= body.take(end - 1 - start));
        assert(body.take(end - start).last() == s@[end - 1]);
        end = end - 1;
    }
    let r = vstd::slice::slice_subrange(s, start, end);
    assert(r@ =~= body.take(end - start));
    r
}

/// The index of the first `b`, or the length where there is none.
pub fn find_byte(s: &[u8], b: u8) -> (r: usize)
    ensures
        r == first_index(s@, b),
        r <= s@.len(),
{
    let mut i: usize = 0;
    assert(s@.skip(0) =~= s@);
    while i < s.len() && s[i] != b
        invariant
            i <= s.len(),
            first_index(s@, b) == i + first_index(s@.skip(i as int), b),
        decreases s.len() - i,
    {
        assert(s@.skip(i as int).skip(1) =~= s@.skip(i + 1));
        i = i + 1;
    }
    i
}

/// A byte that does not occur in `s` is first found right behind it.
pub proof fn lemma_first_index_behind(s: Seq<u8>, b: u8, rest: Seq<u8>)
    requires
        forall|i: int| 0 <= i < s.len() ==> #[trigger] s[i] != b,
    ensures
        first_index(s + rest, b) == s.len() + first_index(rest, b),
    decreases s.len(),
{
    if s.len() == 0 {
        assert(s + rest =~= rest);
    } else {
        assert((s + rest)[0] == s[0]);
        assert((s + rest).skip(1) =~= s.skip(1) + rest);
        lemma_first_index_behind(s.skip(1), b, rest);
    }
}

/// The decimal bytes of `n` are digits and denote `n`.
pub proof fn lemma_decimal_bytes(n: nat)
    ensures
        decimal_bytes(n).len() > 0,
        all_digits(decimal_bytes(n)),
        digits_value(decimal_bytes(n)) == n,
    decreases n,
{
    reveal_with_fuel(digits_value, 2);
    if n < 10 {
        assert(seq![(48 + n) as u8].drop_last() =~= Seq::<u8>::empty());
    } else {
        lemma_decimal_bytes(n / 10);
        assert(decimal_bytes(n).drop_last() =~= decimal_bytes(n / 10));
    }
}

/// Parsing undoes writing in decimal.
pub proof fn law_parse_decimal(n: u64)
    ensures
        parsed_u64(decimal_bytes(n as nat)) == Some(n),
{
    lemma_decimal_bytes(n as nat);
}

/// A digit is written as itself, and a longer number as its leading digits and then its last one.
pub proof fn law_decimal(q: nat, d: nat)
    requires
        d < 10,
    ensures
        decimal(d).len() == 1,
        decimal(d)[0] as int == '0' as int + d,
        q > 0 ==> decimal(10 * q + d) == decimal(q) + decimal(d),
{
    if q > 0 {
        assert(decimal(10 * q + d) =~= decimal(q) + decimal(d));
    }
}

/// Characters as bytes.
pub open spec fn ascii(s: Seq<char>) -> Seq<u8> {
    Seq::new(s.len(), |i: int| (s[i] as int) as u8)
}

/// What is written in decimal is made of digits alone, and parses back as the number.
pub proof fn law_decimal_parses(n: u64)
    ensures
        decimal(n as nat).len() > 0,
        forall|i: int|
            0 <= i < decimal(n as nat).len() ==> '0' as int <= #[trigger] decimal(n as nat)[i] as int
                <= '9' as int,
        parsed_u64(ascii(decimal(n as nat))) == Some(n),
{
    lemma_ascii_decimal(n as nat);
    lemma_decimal_bytes(n as nat);
    assert forall|i: int| 0 <= i < decimal(n as nat).len() implies '0' as int <= #[trigger] decimal(
        n as nat,
    )[i] as int <= '9' as int by {
        assert(decimal_bytes(n as nat)[i] == decimal(n as nat)[i] as int);
    }
}

proof fn lemma_ascii_decimal(n: nat)
    ensures
        ascii(decimal(n)) == decimal_bytes(n),
        forall|i: int|
            0 <= i < decimal(n).len() ==> 48 <= #[trigger] decimal(n)[i] as int <= 57,
    decreases n,
{
    if n >= 10 {
        lemma_ascii_decimal(n / 10);
        assert forall|i: int| 0 <= i < decimal(n).len() implies 48 <= #[trigger] decimal(n)[i] as int
            <= 57 by {
            if i < decimal(n / 10).len() {
                assert(decimal(n)[i] == decimal(n / 10)[i]);
            }
        }
        assert(ascii(decimal(n)) =~= ascii(decimal(n / 10)).push((48 + n % 10) as u8));
    } else {
        assert(ascii(decimal(n)) =~= decimal_bytes(n));
    }
}

/// Digits that follow others shift what those denote by one decimal place each.
pub proof fn law_digits_value(a: Seq<u8>, b: Seq<u8>, d: u8)
    ensures
        digits_value(seq![d]) == d - '0' as int,
        digits_value(a + b) == digits_value(a) * pow(10, b.len()) + digits_value(b),
    decreases b.len(),
{
    reveal_with_fuel(digits_value, 2);
    assert(seq![d].drop_last() =~= Seq::<u8>::empty());
    if b.len() == 0 {
        assert(a + b =~= a);
        lemma_pow0(10);
        assert(digits_value(a) * 1 == digits_value(a));
    } else {
        assert((a + b).drop_last() =~= a + b.drop_last());
        assert((a + b).last() == b.last());
        law_digits_value(a, b.drop_last(), d);
        reveal(pow);
        let v = digits_value(a);
        let p = pow(10, (b.len() - 1) as nat);
        assert(pow(10, b.len()) == 10 * p);
        assert(10 * (v * p) == v * (10 * p)) by (nonlinear_arith);
    }
}

/// Digits, with or without a plus sign in front, parse as what they denote, where that fits a
/// `u64`, and as nothing else.
pub proof fn law_parses_digits(s: Seq<u8>)
    requires
        s.len() > 0,
        forall|i: int| 0 <= i < s.len() ==> '0' as int <= #[trigger] s[i] as int <= '9' as int,
    ensures
        digits_value(s) <= u64::MAX ==> parsed_u64(s) == Some(digits_value(s) as u64) && parsed_u64(
            seq!['+' as u8] + s,
        ) == Some(digits_value(s) as u64) && digits_value(s) >= 0,
        digits_value(s) > u64::MAX ==> parsed_u64(s) is None && parsed_u64(seq!['+' as u8] + s) is None,
{
    lemma_digits_value_nonneg(s);
    assert((seq!['+' as u8] + s).skip(1) =~= s);
    assert('0' as int <= s[0] as int);
}

/// Nothing that holds another character than digits, but for a plus sign in front, parses; nor
/// does what holds no digit.
pub proof fn law_refuses_to_parse(s: Seq<u8>, i: int)
    ensures
        s.len() == 0 ==> parsed_u64(s) is None,
        s == seq!['+' as u8] ==> parsed_u64(s) is None,
        0 <= i < s.len() && !('0' as int <= s[i] as int <= '9' as int) && !(i == 0 && s[0] == '+' as u8)
            ==> parsed_u64(s) is None,
{
    if 0 <= i < s.len() && !(48 <= s[i] <= 57) && !(i == 0 && s[0] == 43) {
        let digits = without_plus(s);
        if s[0] == 43 {
            assert(digits[i - 1] == s[i]);
        } else {
            assert(digits[i] == s[i]);
        }
    }
}

/// Whether all of `s` is white space.
pub open spec fn blank(s: Seq<u8>) -> bool {
    forall|i: int|
        0 <= i < s.len() ==> #[trigger] s[i] == ' ' as u8 || 9 <= s[i] <= 13
}

/// Trimming drops the white space around what neither starts nor ends with any, and nothing else.
pub proof fn law_trims(before: Seq<u8>, s: Seq<u8>, after: Seq<u8>)
    requires
        blank(before),
        blank(after),
        s.len() > 0 ==> !blank(seq![s[0]]) && !blank(seq![s.last()]),
    ensures
        trimmed(before + s + after) == s,
{
    if s.len() > 0 {
        assert(seq![s[0]][0] == s[0]);
        assert(seq![s.last()][0] == s.last());
        lemma_trim_start(before, s + after);
        assert(before + s + after =~= before + (s + after));
        assert((s + after)[0] == s[0]);
        lemma_trim_end(s, after);
    } else {
        assert(before + s + after =~= before + after);
        assert(before + after =~= (before + after) + Seq::<u8>::empty());
        assert forall|i: int| 0 <= i < (before + after).len() implies #[trigger] (before + after)[i]
            == ' ' as u8 || 9 <= (before + after)[i] <= 13 by {
            if i < before.len() {
                assert((before + after)[i] == before[i]);
            } else {
                assert((before + after)[i] == after[i - before.len()]);
            }
        }
        lemma_trim_start(before + after, Seq::empty());
        assert(trimmed(before + s + after) =~= s);
    }
}

proof fn lemma_trim_start(before: Seq<u8>, s: Seq<u8>)
    requires
        blank(before),
    ensures
        trimmed_start(before + s) == trimmed_start(s),
    decreases before.len(),
{
    if before.len() == 0 {
        assert(before + s =~= s);
    } else {
        assert((before + s)[0] == before[0]);
        assert((before + s).skip(1) =~= before.skip(1) + s);
        assert forall|i: int| 0 <= i < before.skip(1).len() implies #[trigger] before.skip(1)[i]
            == ' ' as u8 || 9 <= before.skip(1)[i] <= 13 by {
            assert(before.skip(1)[i] == before[i + 1]);
        }
        lemma_trim_start(before.skip(1), s);
    }
}

proof fn lemma_trim_end(s: Seq<u8>, after: Seq<u8>)
    requires
        blank(after),
    ensures
        trimmed_end(s + after) == trimmed_end(s),
    decreases after.len(),
{
    if after.len() == 0 {
        assert(s + after =~= s);
    } else {
        assert((s + after).last() == after.last());
        assert((s + after).drop_last() =~= s + after.drop_last());
        assert(after.last() == after[after.len() - 1]);
        assert forall|i: int| 0 <= i < after.drop_last().len() implies #[trigger] after.drop_last()[i]
            == ' ' as u8 || 9 <= after.drop_last()[i] <= 13 by {
            assert(after.drop_last()[i] == after[i]);
        }
        lemma_trim_end(s, after.drop_last());
    }
}

/// The first occurrence of a byte has none before it; where there is none at all, the search ends
/// at the end.
pub proof fn law_first_index(s: Seq<u8>, b: u8)
    ensures
        0 <= first_index(s, b) <= s.len(),
        first_index(s, b) < s.len() ==> s[first_index(s, b)] == b,
        forall|i: int| 0 <= i < first_index(s, b) ==> #[trigger] s[i] != b,
    decreases s.len(),
{
    if s.len() > 0 && s[0] != b {
        law_first_index(s.skip(1), b);
        let k = first_index(s.skip(1), b);
        if k < s.len() - 1 {
            assert(s[k + 1] == s.skip(1)[k]);
        }
        assert forall|i: int| 0 <= i < k + 1 implies #[trigger] s[i] != b by {
            if i > 0 {
                assert(s[i] == s.skip(1)[i - 1]);
            }
        }
    }
}

} // verus!
