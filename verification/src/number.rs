//! Unsigned whole numbers and their decimal text.
use crate::text::{ascii_digit, chars_of, is_ascii_digit};
use vstd::prelude::*;

verus! {

/// Why a text is no number.
#[derive(Debug, Clone, Copy, PartialEq, Eq, Structural)]
pub enum NumberError {
    /// There is no text.
    Empty,
    /// A character that is no digit stands where a digit is wanted.
    InvalidDigit,
    /// The value does not fit in 64 bits.
    TooLarge,
}

pub open spec fn digit_of(d: int) -> char {
    (d + 48) as char
}

/// The decimal digits of `n`, without leading zeros.
pub open spec fn decimal_of(n: nat) -> Seq<char>
    decreases n,
{
    if n < 10 {
        seq![digit_of(n as int)]
    } else {
        decimal_of(n / 10).push(digit_of((n % 10) as int))
    }
}

/// The value of a sequence of decimal digits.
pub open spec fn value_of(digits: Seq<char>) -> nat
    decreases digits.len(),
{
    if digits.len() == 0 {
        0
    } else {
        value_of(digits.drop_last()) * 10 + (digits.last() as nat - 48) as nat
    }
}

/// How many digits stand at the front of `s`.
pub open spec fn digit_run(s: Seq<char>) -> int
    decreases s.len(),
{
    if s.len() == 0 || !is_ascii_digit(s[0]) {
        0
    } else {
        1 + digit_run(s.drop_first())
    }
}

/// A number's text without its plus sign.
pub open spec fn unsigned(s: Seq<char>) -> Seq<char> {
    if s.len() > 0 && s[0] == '+' {
        s.drop_first()
    } else {
        s
    }
}

/// The number that `s` stands for: decimal digits, with or without a plus sign before them.
/// The digits at the front decide first; a value too large outweighs a wrong character behind it.
pub open spec fn number_of(s: Seq<char>) -> Result<u64, NumberError> {
    let body = unsigned(s);
    let run = digit_run(body);
    let value = value_of(body.take(run));
    if s.len() == 0 {
        Err(NumberError::Empty)
    } else if value > u64::MAX {
        Err(NumberError::TooLarge)
    } else if body.len() == 0 || run < body.len() {
        Err(NumberError::InvalidDigit)
    } else {
        Ok(value as u64)
    }
}

pub fn decimal(n: u64) -> (s: String)
    ensures
        s@ == decimal_of(n as nat),
    decreases n,
{
    if n < 10 {
        let mut s = String::new();
        s.push((48 + n as u8) as char);
        assert(s@ == seq![digit_of(n as int)]);
        s
    } else {
        let mut s = decimal(n / 10);
        s.push((48 + (n % 10) as u8) as char);
        s
    }
}

proof fn lemma_digit_run_at(s: Seq<char>, i: int)
    requires
        0 <= i <= s.len(),
        forall|k: int| 0 <= k < i ==> is_ascii_digit(#[trigger] s[k]),
        i < s.len() ==> !is_ascii_digit(s[i]),
    ensures
        digit_run(s) == i,
    decreases i,
{
    if i > 0 {
        let t = s.drop_first();
        assert forall|k: int| 0 <= k < i - 1 implies is_ascii_digit(#[trigger] t[k]) by {
            assert(t[k] == s[k + 1]);
        }
        lemma_digit_run_at(t, i - 1);
    }
}

proof fn lemma_digit_run_bounds(s: Seq<char>)
    ensures
        0 <= digit_run(s) <= s.len(),
        forall|k: int| 0 <= k < digit_run(s) ==> is_ascii_digit(#[trigger] s[k]),
    decreases s.len(),
{
    if s.len() > 0 && is_ascii_digit(s[0]) {
        let t = s.drop_first();
        lemma_digit_run_bounds(t);
        assert forall|k: int| 0 <= k < digit_run(s) implies is_ascii_digit(#[trigger] s[k]) by {
            if k > 0 {
                assert(t[k - 1] == s[k]);
            }
        }
    }
}

/// A longer run of digits has no smaller value.
proof fn lemma_value_grows(s: Seq<char>, i: int, j: int)
    requires
        0 <= i <= j <= s.len(),
    ensures
        value_of(s.take(i)) <= value_of(s.take(j)),
    decreases j - i,
{
    if i < j {
        lemma_value_grows(s, i, j - 1);
        assert(s.take(j).drop_last() == s.take(j - 1));
    }
}

pub fn parse_u64(s: &str) -> (r: Result<u64, NumberError>)
    ensures
        r == number_of(s@),
{
    let cs = chars_of(s);
    if cs.len() == 0 {
        return Err(NumberError::Empty);
    }
    let start: usize = if cs[0] == '+' {
        1
    } else {
        0
    };
    let ghost body = unsigned(s@);
    proof {
        assert(cs@.skip(0) == cs@);
        assert(cs@.skip(1) == cs@.drop_first());
        assert(body == cs@.skip(start as int));
        assert(body.take(0) == Seq::<char>::empty());
    }
    let mut value: u64 = 0;
    let mut i = start;
    while i < cs.len()
        invariant
            cs@ == s@,
            cs.len() > 0,
            start <= i <= cs.len(),
            body == unsigned(s@),
            body == cs@.skip(start as int),
            forall|k: int| 0 <= k < i - start ==> is_ascii_digit(#[trigger] body[k]),
            value == value_of(body.take(i - start)),
        decreases cs.len() - i,
    {
        let c = cs[i];
        assert(body[i - start] == c);
        if !ascii_digit(c) {
            proof {
                lemma_digit_run_at(body, i - start);
            }
            return Err(NumberError::InvalidDigit);
        }
        let d: u64 = c as u64 - 48;
        proof {
            assert(body.take(i - start + 1).drop_last() == body.take(i - start));
            assert(value_of(body.take(i - start + 1)) == value * 10 + d);
        }
        let next: Option<u64> = match value.checked_mul(10) {
            Some(v) => v.checked_add(d),
            None => None,
        };
        match next {
            Some(v) => {
                value = v;
                i += 1;
            },
            None => {
                proof {
                    lemma_digit_run_bounds(body);
                    if digit_run(body) < i - start + 1 {
                        lemma_digit_run_least(body, i - start + 1);
                    }
                    lemma_value_grows(body, i - start + 1, digit_run(body));
                }
                return Err(NumberError::TooLarge);
            },
        }
    }
    proof {
        lemma_digit_run_at(body, body.len() as int);
        assert(body.take(body.len() as int) == body);
    }
    if start == cs.len() {
        return Err(NumberError::InvalidDigit);
    }
    Ok(value)
}

proof fn lemma_digit_run_least(s: Seq<char>, i: int)
    requires
        0 <= i <= s.len(),
        forall|k: int| 0 <= k < i ==> is_ascii_digit(#[trigger] s[k]),
    ensures
        digit_run(s) >= i,
    decreases i,
{
    if i > 0 {
        let t = s.drop_first();
        assert forall|k: int| 0 <= k < i - 1 implies is_ascii_digit(#[trigger] t[k]) by {
            assert(t[k] == s[k + 1]);
        }
        lemma_digit_run_least(t, i - 1);
    } else {
        lemma_digit_run_bounds(s);
    }
}

/// The decimal text of a number is made of digits, has at least one, and has the number's value.
pub proof fn lemma_decimal_digits(n: nat)
    ensures
        decimal_of(n).len() > 0,
        forall|k: int| 0 <= k < decimal_of(n).len() ==> is_ascii_digit(#[trigger] decimal_of(n)[k]),
        value_of(decimal_of(n)) == n,
    decreases n,
{
    if n < 10 {
        let s = seq![digit_of(n as int)];
        assert(s.drop_last() == Seq::<char>::empty());
        assert(value_of(s.drop_last()) == 0);
    } else {
        lemma_decimal_digits(n / 10);
        let s = decimal_of(n / 10).push(digit_of((n % 10) as int));
        assert(s.drop_last() == decimal_of(n / 10));
    }
}

/// The text of a number is not empty and holds nothing but digits and a plus sign.
pub proof fn lemma_number_chars(s: Seq<char>)
    requires
        number_of(s) is Ok,
    ensures
        s.len() > 0,
        forall|i: int| 0 <= i < s.len() ==> is_ascii_digit(#[trigger] s[i]) || s[i] == '+',
{
    let body = unsigned(s);
    lemma_digit_run_bounds(body);
    assert forall|i: int| 0 <= i < s.len() implies is_ascii_digit(#[trigger] s[i]) || s[i] == '+' by {
        if s[0] == '+' {
            if i > 0 {
                assert(body[i - 1] == s[i]);
            }
        } else {
            assert(body[i] == s[i]);
        }
    }
}

/// Reading the decimal text of a number gives the number back.
pub proof fn law_decimal_reads_back(n: u64)
    ensures
        number_of(decimal_of(n as nat)) == Ok::<u64, NumberError>(n),
{
    let s = decimal_of(n as nat);
    lemma_decimal_digits(n as nat);
    assert(is_ascii_digit(s[0]));
    lemma_digit_run_at(s, s.len() as int);
    assert(s.take(s.len() as int) == s);
}

/// The decimal text of a number is digits, without a zero before others.
pub proof fn law_decimal_is_shortest(n: nat)
    ensures
        decimal_of(n).len() > 0,
        forall|k: int| 0 <= k < decimal_of(n).len() ==> '0' <= #[trigger] decimal_of(n)[k] <= '9',
        decimal_of(n).len() > 1 ==> decimal_of(n)[0] != '0',
        n == 0 ==> decimal_of(n) == seq!['0'],
    decreases n,
{
    lemma_decimal_digits(n);
    assert forall|k: int| 0 <= k < decimal_of(n).len() implies '0' <= #[trigger] decimal_of(n)[k]
        <= '9' by {
        assert(is_ascii_digit(decimal_of(n)[k]));
    }
    if n >= 10 {
        law_decimal_is_shortest(n / 10);
        assert(decimal_of(n)[0] == decimal_of(n / 10)[0]);
        if decimal_of(n / 10).len() == 1 {
            let d = decimal_of(n / 10);
            assert(d.drop_last() == Seq::<char>::empty());
            assert(value_of(d.drop_last()) == 0);
            lemma_decimal_digits(n / 10);
        }
    }
}

} // verus!
