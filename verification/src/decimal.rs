//! Decimal text of 64-bit integers: how room ids are written into store keys
//! and replies, and how they are read from command arguments.

use vstd::prelude::*;

verus! {

/// The character that stands for the digit `d`, for `0 <= d <= 9`.
pub open spec fn digit_char(d: int) -> char {
    if d == 0 {
        '0'
    } else if d == 1 {
        '1'
    } else if d == 2 {
        '2'
    } else if d == 3 {
        '3'
    } else if d == 4 {
        '4'
    } else if d == 5 {
        '5'
    } else if d == 6 {
        '6'
    } else if d == 7 {
        '7'
    } else if d == 8 {
        '8'
    } else {
        '9'
    }
}

/// Whether `c` is one of the ten ASCII digits.
pub open spec fn is_digit(c: char) -> bool {
    c == '0' || c == '1' || c == '2' || c == '3' || c == '4' || c == '5' || c == '6' || c == '7'
        || c == '8' || c == '9'
}

/// The number that the digit `c` stands for.
pub open spec fn digit_value(c: char) -> nat {
    if c == '1' {
        1
    } else if c == '2' {
        2
    } else if c == '3' {
        3
    } else if c == '4' {
        4
    } else if c == '5' {
        5
    } else if c == '6' {
        6
    } else if c == '7' {
        7
    } else if c == '8' {
        8
    } else if c == '9' {
        9
    } else {
        0
    }
}

/// The digits of `n` in base ten, most significant first, without leading zeros.
pub open spec fn digits(n: nat) -> Seq<char>
    decreases n,
{
    if n < 10 {
        seq![digit_char(n as int)]
    } else {
        digits(n / 10).push(digit_char((n % 10) as int))
    }
}

/// The decimal text of `i`: a minus sign for a negative number, then the
/// digits of its magnitude.
pub open spec fn decimal(i: int) -> Seq<char> {
    if i < 0 {
        seq!['-'] + digits((-i) as nat)
    } else {
        digits(i as nat)
    }
}

fn digit_str(d: u64) -> (s: &'static str)
    requires
        d <= 9,
    ensures
        s@ == seq![digit_char(d as int)],
{
    proof {
        reveal_strlit("0");
        reveal_strlit("1");
        reveal_strlit("2");
        reveal_strlit("3");
        reveal_strlit("4");
        reveal_strlit("5");
        reveal_strlit("6");
        reveal_strlit("7");
        reveal_strlit("8");
        reveal_strlit("9");
    }
    let s = if d == 0 {
        "0"
    } else if d == 1 {
        "1"
    } else if d == 2 {
        "2"
    } else if d == 3 {
        "3"
    } else if d == 4 {
        "4"
    } else if d == 5 {
        "5"
    } else if d == 6 {
        "6"
    } else if d == 7 {
        "7"
    } else if d == 8 {
        "8"
    } else {
        "9"
    };
    assert(s@ =~= seq![digit_char(d as int)]);
    s
}

fn push_digits(out: &mut String, n: u64)
    ensures
        final(out)@ == old(out)@ + digits(n as nat),
    decreases n,
{
    if n >= 10 {
        push_digits(out, n / 10);
    }
    out.append(digit_str(n % 10));
    assert(out@ =~= old(out)@ + digits(n as nat));
}

/// Writes `n` in decimal.
pub fn to_decimal(n: i64) -> (text: String)
    ensures
        text@ == decimal(n as int),
{
    let mut text = String::new();
    if n < 0 {
        proof {
            reveal_strlit("-");
        }
        text.append("-");
        let magnitude: u64 = (-(n + 1)) as u64 + 1;
        push_digits(&mut text, magnitude);
        assert(text@ =~= decimal(n as int));
    } else {
        push_digits(&mut text, n as u64);
        assert(text@ =~= decimal(n as int));
    }
    text
}

/// Whether every character of `s` is a digit.
pub open spec fn all_digits(s: Seq<char>) -> bool {
    forall|i: int| 0 <= i < s.len() ==> is_digit(#[trigger] s[i])
}

/// The number that a sequence of digits writes in base ten; leading zeros count for nothing.
pub open spec fn number(s: Seq<char>) -> nat
    decreases s.len(),
{
    if s.len() == 0 {
        0
    } else {
        number(s.drop_last()) * 10 + digit_value(s.last())
    }
}

/// What `s` after an optional sign reads as.
pub open spec fn unsigned_part(s: Seq<char>) -> Seq<char> {
    if s.len() > 0 && (s[0] == '-' || s[0] == '+') {
        s.skip(1)
    } else {
        s
    }
}

/// The signed number that `s` writes, whether or not it fits in 64 bits.
pub open spec fn signed_number(s: Seq<char>) -> int {
    if s.len() > 0 && s[0] == '-' {
        -(number(unsigned_part(s)) as int)
    } else {
        number(unsigned_part(s)) as int
    }
}

/// The 64-bit integer that `s` writes in decimal: an optional `+` or `-`,
/// then at least one digit and nothing but digits, the whole within the range
/// of `i64`. Any other text is no integer.
pub open spec fn parse_decimal(s: Seq<char>) -> Option<i64> {
    if unsigned_part(s).len() > 0 && all_digits(unsigned_part(s)) && i64::MIN <= signed_number(s)
        <= i64::MAX {
        Some(signed_number(s) as i64)
    } else {
        None
    }
}

/// A number's digits are at least one, and none of them is a sign.
pub proof fn lemma_digits_shape(n: nat)
    ensures
        digits(n).len() >= 1,
        all_digits(digits(n)),
    decreases n,
{
    if n >= 10 {
        lemma_digits_shape(n / 10);
    }
}

/// Two numbers with the same digits are the same number.
pub proof fn lemma_digits_injective(a: nat, b: nat)
    requires
        digits(a) == digits(b),
    ensures
        a == b,
    decreases a,
{
    lemma_digits_shape(a / 10);
    lemma_digits_shape(b / 10);
    if a >= 10 && b >= 10 {
        let x = digits(a / 10);
        let y = digits(b / 10);
        let p = digit_char((a % 10) as int);
        let q = digit_char((b % 10) as int);
        assert(x.push(p) == y.push(q));
        assert(x.push(p).drop_last() =~= x);
        assert(y.push(q).drop_last() =~= y);
        assert(x.push(p).last() == p);
        assert(y.push(q).last() == q);
        lemma_digits_injective(a / 10, b / 10);
        assert(a % 10 == b % 10);
    } else if a < 10 && b < 10 {
        assert(digits(a)[0] == digit_char(a as int));
        assert(digits(b)[0] == digit_char(b as int));
    } else if a < 10 {
        assert(digits(a).len() == 1);
        assert(digits(b).len() == digits(b / 10).len() + 1);
    } else {
        assert(digits(b).len() == 1);
        assert(digits(a).len() == digits(a / 10).len() + 1);
    }
}

/// Two integers with the same decimal text are the same integer.
pub proof fn lemma_decimal_injective(a: int, b: int)
    requires
        decimal(a) == decimal(b),
    ensures
        a == b,
{
    if a < 0 {
        lemma_digits_shape((-a) as nat);
    } else {
        lemma_digits_shape(a as nat);
    }
    if b < 0 {
        lemma_digits_shape((-b) as nat);
    } else {
        lemma_digits_shape(b as nat);
    }
    if a < 0 && b < 0 {
        assert((seq!['-'] + digits((-a) as nat)).skip(1) =~= digits((-a) as nat));
        assert((seq!['-'] + digits((-b) as nat)).skip(1) =~= digits((-b) as nat));
        lemma_digits_injective((-a) as nat, (-b) as nat);
    } else if a >= 0 && b >= 0 {
        lemma_digits_injective(a as nat, b as nat);
    } else if a < 0 {
        assert(decimal(a)[0] == '-');
        assert(is_digit(digits(b as nat)[0]));
    } else {
        assert(decimal(b)[0] == '-');
        assert(is_digit(digits(a as nat)[0]));
    }
}

/// A prefix of a digit sequence writes no larger a number than the whole.
pub proof fn lemma_number_of_prefix(s: Seq<char>, k: int)
    requires
        0 <= k <= s.len(),
    ensures
        number(s.take(k)) <= number(s),
    decreases s.len() - k,
{
    if k == s.len() {
        assert(s.take(k) =~= s);
    } else {
        lemma_number_of_prefix(s.drop_last(), k);
        assert(s.drop_last().take(k) =~= s.take(k));
    }
}

fn digit_of(c: char) -> (d: Option<u64>)
    ensures
        match d {
            Some(v) => is_digit(c) && v == digit_value(c),
            None => !is_digit(c),
        },
{
    if c == '0' {
        Some(0)
    } else if c == '1' {
        Some(1)
    } else if c == '2' {
        Some(2)
    } else if c == '3' {
        Some(3)
    } else if c == '4' {
        Some(4)
    } else if c == '5' {
        Some(5)
    } else if c == '6' {
        Some(6)
    } else if c == '7' {
        Some(7)
    } else if c == '8' {
        Some(8)
    } else if c == '9' {
        Some(9)
    } else {
        None
    }
}

/// Reads `text` as a 64-bit integer in decimal.
pub fn parse_i64(text: &str) -> (parsed: Option<i64>)
    ensures
        parsed == parse_decimal(text@),
{
    let len = text.unicode_len();
    if len == 0 {
        return None;
    }
    let first = text.get_char(0);
    let negative = first == '-';
    let start: usize = if first == '-' || first == '+' {
        1
    } else {
        0
    };
    if start == len {
        return None;
    }
    let ghost body = unsigned_part(text@);
    let mut magnitude: u64 = 0;
    let mut i: usize = start;
    while i < len
        invariant
            len == text@.len(),
            start <= i <= len,
            body == unsigned_part(text@),
            body == text@.skip(start as int),
            all_digits(body.take(i - start)),
            magnitude == number(body.take(i - start)),
            magnitude <= 0x8000_0000_0000_0000,
        decreases len - i,
    {
        let c = text.get_char(i);
        let ghost before = body.take(i - start);
        let ghost after = body.take(i + 1 - start);
        proof {
            assert(after.drop_last() =~= before);
            assert(after.last() == c);
        }
        match digit_of(c) {
            None => {
                assert(!is_digit(body[i - start]));
                assert(!all_digits(body));
                return None;
            },
            Some(d) => {
                let next: u128 = magnitude as u128 * 10 + d as u128;
                if next > 0x8000_0000_0000_0000 {
                    proof {
                        lemma_number_of_prefix(body, i + 1 - start);
                        assert(number(after) == number(before) * 10 + digit_value(c));
                        assert(number(body) > 0x8000_0000_0000_0000);
                    }
                    return None;
                }
                magnitude = next as u64;
            },
        }
        i += 1;
    }
    assert(body.take(len - start) =~= body);
    if negative {
        if magnitude == 0x8000_0000_0000_0000 {
            Some(i64::MIN)
        } else {
            Some(-(magnitude as i64))
        }
    } else if magnitude == 0x8000_0000_0000_0000 {
        None
    } else {
        Some(magnitude as i64)
    }
}

} // verus!
