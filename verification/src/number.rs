//! Unsigned numbers in decimal notation.
use vstd::prelude::*;

use crate::text::chars_of;

verus! {

/// Why a text is not the number that is asked for.
#[derive(Clone, Copy, Debug, PartialEq, Eq, Structural)]
pub enum NumberError {
    /// There is no text at all.
    Empty,
    /// Something that is not a digit stands where a digit has to.
    InvalidDigit,
    /// The number is larger than the largest one allowed.
    TooLarge,
}

/// Whether a character is one of `0` to `9`.
pub open spec fn is_digit(c: char) -> bool {
    '0' <= c <= '9'
}

/// What a digit stands for.
pub open spec fn digit_value(c: char) -> nat {
    (c as int - '0' as int) as nat
}

/// The digit that stands for `d`, which is less than ten.
pub open spec fn digit(d: nat) -> char {
    ('0' as int + d) as char
}

/// The number that the digits stand for, read from the left. What is wrong with the text is
/// reported where it is met first.
pub open spec fn digits_value(s: Seq<char>, max: nat) -> Result<nat, NumberError>
    decreases s.len(),
{
    if s.len() == 0 {
        Ok(0)
    } else {
        match digits_value(s.drop_last(), max) {
            Err(e) => Err(e),
            Ok(v) => if !is_digit(s.last()) {
                Err(NumberError::InvalidDigit)
            } else if v * 10 + digit_value(s.last()) > max {
                Err(NumberError::TooLarge)
            } else {
                Ok(v * 10 + digit_value(s.last()))
            },
        }
    }
}

/// The number not above `max` that the text stands for: digits, with at most one `+` before them.
pub open spec fn number(s: Seq<char>, max: nat) -> Result<nat, NumberError> {
    if s.len() == 0 {
        Err(NumberError::Empty)
    } else if s[0] == '+' {
        if s.len() == 1 {
            Err(NumberError::InvalidDigit)
        } else {
            digits_value(s.skip(1), max)
        }
    } else {
        digits_value(s, max)
    }
}

/// A number in decimal notation, without leading zeros.
pub open spec fn decimal(n: nat) -> Seq<char>
    decreases n,
{
    if n < 10 {
        seq![digit(n)]
    } else {
        decimal(n / 10).push(digit(n % 10))
    }
}

proof fn lemma_digit(d: nat)
    requires
        d < 10,
    ensures
        is_digit(digit(d)),
        digit_value(digit(d)) == d,
{
}

proof fn lemma_decimal(n: nat, max: nat)
    requires
        n <= max,
    ensures
        decimal(n).len() > 0,
        is_digit(decimal(n)[0]),
        digits_value(decimal(n), max) == Ok::<nat, NumberError>(n),
    decreases n,
{
    lemma_digit(n % 10);
    if n < 10 {
        lemma_digit(n);
        assert(decimal(n).drop_last() =~= seq![]);
        assert(digits_value(seq![], max) == Ok::<nat, NumberError>(0));
    } else {
        lemma_decimal(n / 10, max);
        assert(decimal(n).drop_last() =~= decimal(n / 10));
        assert(decimal(n)[0] == decimal(n / 10)[0]);
    }
}

/// A number that is written down is made of digits.
pub proof fn decimal_is_digits(n: nat)
    ensures
        decimal(n).len() > 0,
        forall|i: int| 0 <= i < decimal(n).len() ==> is_digit(#[trigger] decimal(n)[i]),
    decreases n,
{
    lemma_digit(n % 10);
    if n >= 10 {
        decimal_is_digits(n / 10);
    }
}

/// Reading a number that was written down gives the number.
pub proof fn read_back(n: nat, max: nat)
    requires
        n <= max,
    ensures
        number(decimal(n), max) == Ok::<nat, NumberError>(n),
{
    lemma_decimal(n, max);
}

/// A number that is read is not above the largest one allowed.
pub proof fn number_is_bounded(s: Seq<char>, max: nat)
    ensures
        number(s, max) matches Ok(n) ==> n <= max,
{
    if s.len() > 0 {
        if s[0] == '+' {
            lemma_digits_bounded(s.skip(1), max);
        } else {
            lemma_digits_bounded(s, max);
        }
    }
}

proof fn lemma_digits_bounded(s: Seq<char>, max: nat)
    ensures
        digits_value(s, max) matches Ok(n) ==> n <= max,
    decreases s.len(),
{
    if s.len() > 0 {
        lemma_digits_bounded(s.drop_last(), max);
    }
}

/// An error in the first `i` characters is the error of the whole.
proof fn lemma_digits_prefix(s: Seq<char>, max: nat, i: int)
    requires
        0 <= i <= s.len(),
        digits_value(s.take(i), max) is Err,
    ensures
        digits_value(s, max) == digits_value(s.take(i), max),
    decreases s.len() - i,
{
    if i < s.len() {
        assert(s.take(i + 1).drop_last() =~= s.take(i));
        lemma_digits_prefix(s, max, i + 1);
    } else {
        assert(s.take(i) =~= s);
    }
}

/// Reads a number not above `max`.
pub fn parse_number(s: &str, max: u64) -> (r: Result<u64, NumberError>)
    ensures
        match r {
            Ok(n) => number(s@, max as nat) == Ok::<nat, NumberError>(n as nat) && n <= max,
            Err(e) => number(s@, max as nat) == Err::<nat, NumberError>(e),
        },
{
    let cs = chars_of(s);
    if cs.len() == 0 {
        return Err(NumberError::Empty);
    }
    let mut i: usize = 0;
    if cs[0] == '+' {
        if cs.len() == 1 {
            return Err(NumberError::InvalidDigit);
        }
        i = 1;
    }
    let ghost first = i as int;
    let ghost body = cs@.skip(first);
    proof {
        assert(cs@.skip(0) =~= cs@);
        assert(body.take(0) =~= seq![]);
    }
    let mut n: u64 = 0;
    while i < cs.len()
        invariant
            0 <= first <= i <= cs.len(),
            body == cs@.skip(first),
            number(cs@, max as nat) == digits_value(body, max as nat),
            digits_value(body.take(i - first), max as nat) == Ok::<nat, NumberError>(n as nat),
            n <= max,
            cs@ == s@,
        decreases cs.len() - i,
    {
        let c = cs[i];
        let ghost here = body.take(i - first + 1);
        proof {
            assert(here.drop_last() =~= body.take(i - first));
            assert(here.last() == c);
        }
        if c < '0' || c > '9' {
            proof {
                lemma_digits_prefix(body, max as nat, i - first + 1);
            }
            return Err(NumberError::InvalidDigit);
        }
        let d: u64 = (c as u32 - '0' as u32) as u64;
        if n > max / 10 || d > max - n * 10 {
            proof {
                assert(n * 10 + d > max);
                lemma_digits_prefix(body, max as nat, i - first + 1);
            }
            return Err(NumberError::TooLarge);
        }
        n = n * 10 + d;
        i += 1;
    }
    proof {
        assert(body.take(i - first) =~= body);
    }
    Ok(n)
}

/// Writes a number in decimal notation.
pub fn print_number(n: u64) -> (s: String)
    ensures
        s@ == decimal(n as nat),
    decreases n,
{
    let d: u32 = (n % 10) as u32;
    let c = digit_char(d);
    let mut s = if n < 10 {
        String::new()
    } else {
        print_number(n / 10)
    };
    s.push(c);
    assert(s@ =~= decimal(n as nat));
    s
}

/// The digit for a number below ten.
fn digit_char(d: u32) -> (c: char)
    requires
        d < 10,
    ensures
        c == digit(d as nat),
{
    (48u8 + d as u8) as char
}

/// The text behind a `+`, where it starts with one.
pub open spec fn without_plus(s: Seq<char>) -> Seq<char> {
    if s.len() > 0 && s[0] == '+' {
        s.skip(1)
    } else {
        s
    }
}

/// What digits stand for, each ten times as much as the one behind it.
pub open spec fn positional(s: Seq<char>) -> int
    decreases s.len(),
{
    if s.len() == 0 {
        0
    } else {
        positional(s.drop_last()) * 10 + (s.last() as int - 48)
    }
}

/// Whether a text is made of the characters from `0` to `9` alone.
pub open spec fn all_digits(s: Seq<char>) -> bool {
    forall|i: int| 0 <= i < s.len() ==> 48 <= (#[trigger] s[i]) as int <= 57
}

/// More digits do not stand for less.
proof fn lemma_positional(s: Seq<char>, i: int)
    requires
        all_digits(s),
        0 <= i <= s.len(),
    ensures
        0 <= positional(s.take(i)) <= positional(s),
    decreases s.len() - i, s.len(),
{
    if i == s.len() {
        assert(s.take(i) =~= s);
        if s.len() > 0 {
            assert(all_digits(s.drop_last()));
            lemma_positional(s.drop_last(), i - 1);
            assert(s.drop_last().take(i - 1) =~= s.drop_last());
            assert(s[i - 1] == s.last());
        }
    } else {
        lemma_positional(s, i + 1);
        let t = s.take(i + 1);
        assert(t.drop_last() =~= s.take(i));
        assert(t.last() == s[i]);
        assert(all_digits(s.take(i)));
        lemma_not_negative(s.take(i));
    }
}

proof fn lemma_not_negative(s: Seq<char>)
    requires
        all_digits(s),
    ensures
        positional(s) >= 0,
    decreases s.len(),
{
    if s.len() > 0 {
        assert(all_digits(s.drop_last()));
        lemma_not_negative(s.drop_last());
        assert(s[s.len() - 1] == s.last());
    }
}

/// Reading digits from the left, step by step, against what they stand for.
proof fn lemma_digits_value(s: Seq<char>, max: nat)
    ensures
        match digits_value(s, max) {
            Ok(n) => all_digits(s) && n == positional(s) && n <= max,
            Err(NumberError::TooLarge) => exists|i: int|
                0 < i <= s.len() && all_digits(#[trigger] s.take(i)) && positional(s.take(i)) > max,
            Err(NumberError::InvalidDigit) => exists|i: int|
                0 <= i < s.len() && !is_digit(s[i]) && all_digits(#[trigger] s.take(i))
                    && positional(s.take(i)) <= max,
            Err(NumberError::Empty) => false,
        },
    decreases s.len(),
{
    if s.len() > 0 {
        let t = s.drop_last();
        let n = s.len() as int;
        lemma_digits_value(t, max);
        assert(s.take(n - 1) =~= t);
        assert(s.take(n) =~= s);
        match digits_value(t, max) {
            Ok(v) => {
                if !is_digit(s.last()) {
                    assert(s[n - 1] == s.last());
                    assert(all_digits(s.take(n - 1)));
                } else {
                    assert forall|i: int| 0 <= i < s.len() implies 48 <= (#[trigger] s[i]) as int
                        <= 57 by {
                        if i < n - 1 {
                            assert(s[i] == t[i]);
                        }
                    }
                    assert(all_digits(s.take(n)));
                }
            },
            Err(NumberError::TooLarge) => {
                let i = choose|i: int|
                    0 < i <= t.len() && all_digits(#[trigger] t.take(i)) && positional(t.take(i))
                        > max;
                assert(t.take(i) =~= s.take(i));
            },
            Err(NumberError::InvalidDigit) => {
                let i = choose|i: int|
                    0 <= i < t.len() && !is_digit(t[i]) && all_digits(#[trigger] t.take(i))
                        && positional(t.take(i)) <= max;
                assert(t.take(i) =~= s.take(i));
                assert(s[i] == t[i]);
            },
            Err(NumberError::Empty) => {},
        }
    }
}

/// A text is a number exactly where, behind at most one `+`, it has digits alone, at least one, and
/// they stand for no more than the largest number allowed; it is the number that they stand for.
/// Of what is wrong with a text, the leftmost is reported.
pub proof fn a_number_is_its_digits(s: Seq<char>, max: nat)
    ensures
        ({
            let t = without_plus(s);
            &&& number(s, max) is Ok <==> t.len() > 0 && all_digits(t) && positional(t) <= max
            &&& number(s, max) matches Ok(n) ==> n == positional(t)
            &&& number(s, max) == Err::<nat, NumberError>(NumberError::Empty) <==> s.len() == 0
            &&& number(s, max) == Err::<nat, NumberError>(NumberError::TooLarge) ==> exists|i: int|
                0 < i <= t.len() && all_digits(#[trigger] t.take(i)) && positional(t.take(i)) > max
            &&& number(s, max) == Err::<nat, NumberError>(NumberError::InvalidDigit) && t.len() > 0
                ==> exists|i: int|
                0 <= i < t.len() && !is_digit(t[i]) && all_digits(#[trigger] t.take(i))
                    && positional(t.take(i)) <= max
        }),
{
    let t = without_plus(s);
    lemma_digits_value(t, max);
    if t.len() > 0 && all_digits(t) && positional(t) <= max {
        if digits_value(t, max) == Err::<nat, NumberError>(NumberError::TooLarge) {
            let i = choose|i: int|
                0 < i <= t.len() && all_digits(#[trigger] t.take(i)) && positional(t.take(i)) > max;
            lemma_positional(t, i);
        }
    }
}

/// A number above zero is written without a zero before it.
pub proof fn no_leading_zero(n: nat)
    requires
        n > 0,
    ensures
        decimal(n)[0] != '0',
    decreases n,
{
    decimal_is_digits(n);
    lemma_digit(n % 10);
    if n >= 10 {
        no_leading_zero(n / 10);
        decimal_is_digits(n / 10);
        assert(decimal(n)[0] == decimal(n / 10)[0]);
    }
}

} // verus!
