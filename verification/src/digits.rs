//! Decimal numerals: what a run of digits denotes, and how a counter is
//! written out.

use vstd::prelude::*;

verus! {

/// Whether `c` is one of the ten ASCII digits.
pub open spec fn is_digit(c: char) -> bool {
    48 <= c as int && c as int <= 57
}

/// The number that the digit `c` stands for.
pub open spec fn digit_value(c: char) -> int {
    c as int - 48
}

/// The digit that stands for `d`, for `d` from 0 to 9.
pub open spec fn digit_char(d: int) -> char {
    (d + 48) as char
}

/// Whether every character of `s` is a digit.
pub open spec fn all_digits(s: Seq<char>) -> bool {
    forall|i: int| 0 <= i < s.len() ==> is_digit(#[trigger] s[i])
}

/// The number that the digits of `s` denote, most significant digit first.
/// The empty run denotes 0.
pub open spec fn digits_value(s: Seq<char>) -> int
    decreases s.len(),
{
    if s.len() == 0 {
        0
    } else {
        10 * digits_value(s.drop_last()) + digit_value(s.last())
    }
}

/// The shortest decimal numeral of `n`.
pub open spec fn decimal(n: nat) -> Seq<char>
    decreases n,
{
    if n < 10 {
        seq![digit_char(n as int)]
    } else {
        decimal(n / 10).push(digit_char((n % 10) as int))
    }
}

/// `count` zeros.
pub open spec fn zeros(count: nat) -> Seq<char> {
    Seq::new(count, |i: int| '0')
}

/// `s` with zeros put in front until it is `width` characters long; `s` itself
/// where it is that long already.
pub open spec fn zero_padded(s: Seq<char>, width: nat) -> Seq<char> {
    if s.len() >= width {
        s
    } else {
        zeros((width - s.len()) as nat) + s
    }
}

/// A counter written in a field of five characters, filled with zeros: a value
/// from 0 to 99999 takes exactly five digits, a larger one is written in full
/// with as many digits as it has, and a negative one has its sign in front and
/// its digits filled to four.
pub open spec fn padded_counter(n: int) -> Seq<char> {
    if n >= 0 {
        zero_padded(decimal(n as nat), 5)
    } else {
        seq!['-'] + zero_padded(decimal((-n) as nat), 4)
    }
}

/// The number that `c` stands for, if `c` is a digit.
pub fn digit_of(c: char) -> (r: Option<u8>)
    ensures
        is_digit(c) <==> r.is_some(),
        r matches Some(d) ==> d as int == digit_value(c) && d <= 9,
{
    if c >= '0' && c <= '9' {
        let code: u32 = c as u32;
        Some((code - 48) as u8)
    } else {
        None
    }
}

/// Whether `s` begins with a plus or a minus sign.
pub open spec fn has_sign(s: Seq<char>) -> bool {
    s.len() > 0 && (s[0] == '+' || s[0] == '-')
}

/// `s` without its sign, if it has one.
pub open spec fn numeral_body(s: Seq<char>) -> Seq<char> {
    if has_sign(s) {
        s.drop_first()
    } else {
        s
    }
}

/// Whether `s` is a decimal numeral: an optional sign, then one digit or more
/// and nothing else.
pub open spec fn is_numeral(s: Seq<char>) -> bool {
    numeral_body(s).len() > 0 && all_digits(numeral_body(s))
}

/// The integer that the numeral `s` denotes.
pub open spec fn numeral_value(s: Seq<char>) -> int {
    if s.len() > 0 && s[0] == '-' {
        -digits_value(numeral_body(s))
    } else {
        digits_value(numeral_body(s))
    }
}

/// The counter that `s` denotes: `s` must be a numeral whose value is not
/// negative and fits in 64 bits with a sign.
pub open spec fn counter_of_numeral(s: Seq<char>) -> Option<i64> {
    if is_numeral(s) && 0 <= numeral_value(s) <= i64::MAX {
        Some(numeral_value(s) as i64)
    } else {
        None
    }
}

/// A run of digits denotes no negative number.
pub proof fn lemma_digits_value_nonnegative(s: Seq<char>)
    requires
        all_digits(s),
    ensures
        0 <= digits_value(s),
    decreases s.len(),
{
    if s.len() > 0 {
        lemma_digits_value_nonnegative(s.drop_last());
    }
}

/// A run of digits denotes at least what any of its prefixes denotes.
pub proof fn lemma_prefix_value(s: Seq<char>, k: int)
    requires
        all_digits(s),
        0 <= k <= s.len(),
    ensures
        digits_value(s.take(k)) <= digits_value(s),
    decreases s.len(),
{
    if k == s.len() {
        assert(s.take(k) =~= s);
    } else {
        lemma_prefix_value(s.drop_last(), k);
        lemma_digits_value_nonnegative(s.drop_last());
        assert(s.drop_last().take(k) =~= s.take(k));
    }
}

/// Reads a counter from `segment`.
pub fn parse_counter(segment: &str) -> (r: Option<i64>)
    ensures
        r == counter_of_numeral(segment@),
{
    let len = segment.unicode_len();
    if len == 0 {
        return None;
    }
    let first = segment.get_char(0);
    let negative = first == '-';
    let start: usize = if first == '+' || first == '-' {
        1
    } else {
        0
    };
    if start == len {
        return None;
    }
    let ghost body = numeral_body(segment@);
    assert(body =~= segment@.subrange(start as int, len as int));
    let mut acc: i64 = 0;
    let mut i: usize = start;
    while i < len
        invariant
            start <= i <= len,
            len == segment@.len(),
            body == segment@.subrange(start as int, len as int),
            body == numeral_body(segment@),
            all_digits(body.take(i - start)),
            acc == digits_value(body.take(i - start)),
            0 <= acc,
        decreases len - i,
    {
        let c = segment.get_char(i);
        let ghost k = i - start;
        assert(body[k] == c);
        assert(body.take(k + 1).drop_last() =~= body.take(k));
        assert(body.take(k + 1).last() == c);
        match digit_of(c) {
            None => {
                assert(!is_digit(body[k]));
                return None;
            },
            Some(d) => {
                if acc > (i64::MAX - d as i64) / 10 {
                    proof {
                        if all_digits(body) {
                            lemma_prefix_value(body, k + 1);
                        }
                    }
                    return None;
                }
                acc = acc * 10 + d as i64;
            },
        }
        i += 1;
    }
    assert(body.take(len - start) =~= body);
    if negative && acc != 0 {
        None
    } else {
        Some(acc)
    }
}

/// The one-character text of the digit `d`.
fn digit_text(d: u8) -> (r: &'static str)
    requires
        d <= 9,
    ensures
        r@ == seq![digit_char(d as int)],
{
    proof {
        reveal_strlit("0");
        reveal_strlit("1");
        reveal_strlit("2");
        reveal_strlit("3");
        reveal_strlit("4");
        reveal_strlit("5");
        reveal_strlit("6");
        reveal_strlit("7");
        reveal_strlit("8");
        reveal_strlit("9");
    }
    let r = match d {
        0 => "0",
        1 => "1",
        2 => "2",
        3 => "3",
        4 => "4",
        5 => "5",
        6 => "6",
        7 => "7",
        8 => "8",
        _ => "9",
    };
    assert(r@ =~= seq![digit_char(d as int)]);
    r
}

/// Ten to the power `e`.
pub open spec fn pow10(e: nat) -> int
    decreases e,
{
    if e == 0 {
        1
    } else {
        10 * pow10((e - 1) as nat)
    }
}

/// Each power of ten is positive, and ten times the one before.
proof fn lemma_pow10_step(e: nat)
    ensures
        pow10(e + 1) == 10 * pow10(e),
        pow10(e) > 0,
    decreases e,
{
    if e > 0 {
        lemma_pow10_step((e - 1) as nat);
    }
}

/// Ten to the power 20 does not fit in 64 bits.
proof fn lemma_pow10_twenty()
    ensures
        pow10(20) > u64::MAX,
{
    reveal_with_fuel(pow10, 21);
}

/// How many digits the shortest numeral of `n` has.
fn decimal_len(n: u64) -> (r: usize)
    ensures
        r == decimal(n as nat).len(),
        1 <= r <= 20,
{
    let mut rest: u64 = n;
    let mut count: usize = 1;
    while rest >= 10
        invariant
            1 <= count,
            count + decimal(rest as nat).len() == decimal(n as nat).len() + 1,
            rest as int * pow10((count - 1) as nat) <= n,
            count <= 20,
        decreases rest,
    {
        proof {
            lemma_pow10_step((count - 1) as nat);
            assert((rest / 10) as int * pow10(count as nat) <= n) by (nonlinear_arith)
                requires
                    rest as int * pow10((count - 1) as nat) <= n,
                    pow10(count as nat) == 10 * pow10((count - 1) as nat),
                    rest >= 0,
                    pow10((count - 1) as nat) > 0,
            ;
            if count == 20 {
                lemma_pow10_twenty();
                assert(rest as int * pow10(19) >= pow10(20)) by (nonlinear_arith)
                    requires
                        rest >= 10,
                        pow10(20) == 10 * pow10(19),
                        pow10(19) > 0,
                ;
            }
        }
        rest = rest / 10;
        count += 1;
    }
    count
}

/// Appends the shortest numeral of `n` to `out`.
fn push_decimal(out: &mut String, n: u64)
    ensures
        final(out)@ == old(out)@ + decimal(n as nat),
    decreases n,
{
    if n >= 10 {
        push_decimal(out, n / 10);
    }
    out.append(digit_text((n % 10) as u8));
    assert(final(out)@ =~= old(out)@ + decimal(n as nat));
}

/// Appends to `out` the numeral of `n`, with zeros in front of it until it is
/// `width` characters long.
fn push_padded(out: &mut String, n: u64, width: usize)
    ensures
        final(out)@ == old(out)@ + zero_padded(decimal(n as nat), width as nat),
{
    let len = decimal_len(n);
    let mut filled: usize = len;
    while filled < width
        invariant
            len <= filled,
            filled <= width || filled == len,
            len == decimal(n as nat).len(),
            out@ == old(out)@ + zeros((filled - len) as nat),
        decreases width - filled,
    {
        proof {
            reveal_strlit("0");
        }
        out.append("0");
        filled += 1;
        assert(out@ =~= old(out)@ + zeros((filled - len) as nat));
    }
    push_decimal(out, n);
    assert(out@ =~= old(out)@ + zero_padded(decimal(n as nat), width as nat));
}

/// Writes a counter in a field of five characters, filled with zeros.
pub fn format_counter(n: i64) -> (r: String)
    ensures
        r@ == padded_counter(n as int),
{
    let mut out = String::new();
    if n >= 0 {
        push_padded(&mut out, n as u64, 5);
        assert(out@ =~= padded_counter(n as int));
    } else {
        proof {
            reveal_strlit("-");
        }
        out.append("-");
        let magnitude: u64 = (-(n + 1)) as u64 + 1;
        push_padded(&mut out, magnitude, 4);
        assert(out@ =~= padded_counter(n as int));
    }
    out
}

/// The shortest numeral of `n` is made of digits, begins with a zero only
/// where `n` is 0, and denotes `n`.
pub proof fn lemma_decimal_denotes(n: nat)
    ensures
        decimal(n).len() >= 1,
        all_digits(decimal(n)),
        digits_value(decimal(n)) == n,
        n > 0 ==> decimal(n)[0] != '0',
    decreases n,
{
    if n >= 10 {
        lemma_decimal_denotes(n / 10);
        let head = decimal(n / 10);
        let d = digit_char((n % 10) as int);
        assert(head.push(d).drop_last() =~= head);
        assert(head.push(d).last() == d);
        assert(head.push(d)[0] == head[0]);
    } else {
        let one = seq![digit_char(n as int)];
        assert(one.drop_last() =~= Seq::<char>::empty());
        assert(digits_value(one.drop_last()) == 0);
        assert(one.last() == digit_char(n as int));
        assert(digits_value(one) == n);
    }
}

/// Zeros in front of a run of digits do not change what it denotes.
pub proof fn lemma_leading_zeros(count: nat, s: Seq<char>)
    ensures
        digits_value(zeros(count) + s) == digits_value(s),
        all_digits(s) ==> all_digits(zeros(count) + s),
    decreases s.len(), count,
{
    let whole = zeros(count) + s;
    if s.len() > 0 {
        lemma_leading_zeros(count, s.drop_last());
        assert(whole.drop_last() =~= zeros(count) + s.drop_last());
        assert(whole.last() == s.last());
    } else if count > 0 {
        lemma_leading_zeros((count - 1) as nat, s);
        assert(whole.drop_last() =~= zeros((count - 1) as nat) + s);
        assert(whole.last() == '0');
    }
    if all_digits(s) {
        assert forall|i: int| 0 <= i < whole.len() implies is_digit(#[trigger] whole[i]) by {
            if i >= count {
                assert(whole[i] == s[i - count]);
            }
        }
    }
}

/// A number below ten to the power `k` has at most `k` digits, and one that is
/// not below it has more than `k`.
pub proof fn lemma_decimal_len(n: nat, k: nat)
    requires
        k >= 1,
    ensures
        n < pow10(k) ==> decimal(n).len() <= k,
        n >= pow10(k) ==> decimal(n).len() > k,
    decreases k,
{
    lemma_pow10_step(k);
    lemma_pow10_step((k - 1) as nat);
    if n >= 10 {
        if k >= 2 {
            lemma_decimal_len(n / 10, (k - 1) as nat);
        }
    }
}

/// Counters from 0 to 99999 are written with exactly five digits, which denote
/// the counter again. From 100000 on a counter is written in full, with no
/// zero in front and as many digits as it has, six at least.
pub proof fn lemma_padded_counter_width(n: int)
    requires
        n >= 0,
    ensures
        all_digits(padded_counter(n)),
        digits_value(padded_counter(n)) == n,
        n <= 99999 ==> padded_counter(n).len() == 5,
        n >= 100000 ==> padded_counter(n) == decimal(n as nat) && padded_counter(n).len() >= 6
            && padded_counter(n)[0] != '0',
{
    let numeral = decimal(n as nat);
    lemma_decimal_denotes(n as nat);
    lemma_decimal_len(n as nat, 5);
    assert(pow10(5) == 100000) by {
        reveal_with_fuel(pow10, 6);
    }
    if numeral.len() < 5 {
        lemma_leading_zeros((5 - numeral.len()) as nat, numeral);
    }
}

} // verus!
