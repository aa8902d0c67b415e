//! The decimal notation of integers: how an integer is written, which texts
//! denote an integer, and what they denote.

use crate::text::{digit, is_digit};
use vstd::prelude::*;

verus! {

/// The character of the digit `d`, for `0 <= d <= 9`.
pub open spec fn digit_char(d: int) -> char {
    if d == 0 {
        '0'
    } else if d == 1 {
        '1'
    } else if d == 2 {
        '2'
    } else if d == 3 {
        '3'
    } else if d == 4 {
        '4'
    } else if d == 5 {
        '5'
    } else if d == 6 {
        '6'
    } else if d == 7 {
        '7'
    } else if d == 8 {
        '8'
    } else {
        '9'
    }
}

/// The number that the digit `c` stands for.
pub open spec fn digit_value(c: char) -> int {
    c as int - '0' as int
}

/// The digits of `n`, most significant first, without leading zeros.
pub open spec fn digits(n: nat) -> Seq<char>
    decreases n,
{
    if n < 10 {
        seq![digit_char(n as int)]
    } else {
        digits(n / 10).push(digit_char((n % 10) as int))
    }
}

/// The canonical decimal text of `n`: a minus sign for a negative number,
/// then the digits of its magnitude.
pub open spec fn decimal(n: int) -> Seq<char> {
    if n < 0 {
        seq!['-'] + digits((-n) as nat)
    } else {
        digits(n as nat)
    }
}

/// Every character of `s` is a decimal digit.
pub open spec fn all_digits(s: Seq<char>) -> bool {
    forall|i: int| 0 <= i < s.len() ==> is_digit(#[trigger] s[i])
}

/// The number that the digit string `s` denotes; leading zeros are allowed.
pub open spec fn digits_value(s: Seq<char>) -> nat
    decreases s.len(),
{
    if s.len() == 0 {
        0
    } else {
        (digits_value(s.drop_last()) * 10 + digit_value(s.last())) as nat
    }
}

/// `s` is an optional minus sign followed by one or more decimal digits.
pub open spec fn is_integer_text(s: Seq<char>) -> bool {
    if s.len() > 0 && s[0] == '-' {
        s.len() > 1 && all_digits(s.skip(1))
    } else {
        s.len() > 0 && all_digits(s)
    }
}

/// The integer that an integer text denotes.
pub open spec fn integer_value(s: Seq<char>) -> int {
    if s.len() > 0 && s[0] == '-' {
        -(digits_value(s.skip(1)) as int)
    } else {
        digits_value(s) as int
    }
}

/// The 64-bit integer that `s` denotes, if it denotes one that fits.
pub open spec fn integer_of(s: Seq<char>) -> Option<i64> {
    if is_integer_text(s) && i64::MIN <= integer_value(s) <= i64::MAX {
        Some(integer_value(s) as i64)
    } else {
        None
    }
}

/// One more digit at the end multiplies the value by ten and adds the digit.
proof fn lemma_digits_value_step(s: Seq<char>, i: int)
    requires
        0 <= i < s.len(),
        is_digit(s[i]),
    ensures
        digits_value(s.take(i + 1)) == digits_value(s.take(i)) * 10 + digit_value(s[i]),
        digits_value(s.take(i)) <= digits_value(s.take(i + 1)),
{
    assert(s.take(i + 1).drop_last() =~= s.take(i));
    assert(s.take(i + 1).last() == s[i]);
}

/// The value of a digit string is at least the value of each of its prefixes.
proof fn lemma_digits_value_monotonic(s: Seq<char>, i: int)
    requires
        all_digits(s),
        0 <= i <= s.len(),
    ensures
        digits_value(s.take(i)) <= digits_value(s),
    decreases s.len() - i,
{
    if i == s.len() {
        assert(s.take(i) =~= s);
    } else {
        lemma_digits_value_step(s, i);
        lemma_digits_value_monotonic(s, i + 1);
    }
}

/// The digits of a number are digits, at least one, and denote the number.
pub proof fn lemma_digits_denote(n: nat)
    ensures
        digits(n).len() >= 1,
        all_digits(digits(n)),
        digits_value(digits(n)) == n,
    decreases n,
{
    if n < 10 {
        let s = digits(n);
        assert(s.drop_last() =~= Seq::<char>::empty());
        assert(digits_value(s.drop_last()) == 0);
    } else {
        lemma_digits_denote(n / 10);
        let s = digits(n);
        assert(s.drop_last() =~= digits(n / 10));
        assert(s.last() == digit_char((n % 10) as int));
    }
}

/// The canonical text of an integer is an integer text, and it denotes that
/// integer.
pub proof fn lemma_decimal_denotes(n: int)
    ensures
        is_integer_text(decimal(n)),
        integer_value(decimal(n)) == n,
{
    if n < 0 {
        let m = (-n) as nat;
        lemma_digits_denote(m);
        assert(decimal(n).skip(1) =~= digits(m));
    } else {
        lemma_digits_denote(n as nat);
        assert(digits(n as nat)[0] != '-');
    }
}

/// Appends the digits of `m` to `s`.
fn push_digits(s: &mut String, m: u64)
    ensures
        final(s)@ == old(s)@ + digits(m as nat),
    decreases m,
{
    if m >= 10 {
        push_digits(s, m / 10);
    }
    let d: u64 = m % 10;
    let c: char = if d == 0 {
        '0'
    } else if d == 1 {
        '1'
    } else if d == 2 {
        '2'
    } else if d == 3 {
        '3'
    } else if d == 4 {
        '4'
    } else if d == 5 {
        '5'
    } else if d == 6 {
        '6'
    } else if d == 7 {
        '7'
    } else if d == 8 {
        '8'
    } else {
        '9'
    };
    s.push(c);
    assert(s@ =~= old(s)@ + digits(m as nat));
}

/// The canonical decimal text of `n`.
pub fn decimal_string(n: i64) -> (r: String)
    ensures
        r@ == decimal(n as int),
{
    let mut s = String::new();
    if n < 0 {
        s.push('-');
        let m: u64 = if n == i64::MIN {
            9223372036854775808u64
        } else {
            (-n) as u64
        };
        push_digits(&mut s, m);
        assert(s@ =~= decimal(n as int));
    } else {
        push_digits(&mut s, n as u64);
        assert(s@ =~= decimal(n as int));
    }
    s
}

/// Tells whether `t` is an optional minus sign followed by one or more digits.
pub fn integer_text(t: &Vec<char>) -> (r: bool)
    ensures
        r == is_integer_text(t@),
{
    let start: usize = if t.len() > 0 && t[0] == '-' {
        1
    } else {
        0
    };
    if t.len() <= start {
        return false;
    }
    let mut i: usize = start;
    while i < t.len()
        invariant
            start <= i <= t.len(),
            start < t.len(),
            start == (if t@[0] == '-' { 1int } else { 0int }),
            forall|j: int| start <= j < i ==> is_digit(#[trigger] t@[j]),
        decreases t.len() - i,
    {
        if !digit(t[i]) {
            proof {
                if start == 1 {
                    assert(t@.skip(1)[i - 1] == t@[i as int]);
                }
            }
            return false;
        }
        i += 1;
    }
    proof {
        if start == 1 {
            assert forall|j: int| 0 <= j < t@.skip(1).len() implies is_digit(
                #[trigger] t@.skip(1)[j],
            ) by {
                assert(t@.skip(1)[j] == t@[j + 1]);
            }
        }
    }
    true
}

/// The 64-bit integer that `t` denotes; `None` where `t` is no integer text,
/// or denotes a number that does not fit in 64 bits.
pub fn parse_integer(t: &Vec<char>) -> (r: Option<i64>)
    ensures
        r == integer_of(t@),
{
    if !integer_text(t) {
        return None;
    }
    let negative: bool = t[0] == '-';
    let start: usize = if negative {
        1
    } else {
        0
    };
    let limit: u128 = if negative {
        9223372036854775808u128
    } else {
        9223372036854775807u128
    };
    let ghost body = t@.skip(start as int);
    let mut acc: u128 = 0;
    let mut i: usize = start;
    assert(body.take(0) =~= Seq::<char>::empty());
    while i < t.len()
        invariant
            start <= i <= t.len(),
            t@.len() > 0,
            is_integer_text(t@),
            negative == (t@[0] == '-'),
            start == (if negative { 1int } else { 0int }),
            limit == (if negative { 9223372036854775808int } else { 9223372036854775807int }),
            body == t@.skip(start as int),
            all_digits(body),
            acc == digits_value(body.take(i - start)),
            acc <= limit,
        decreases t.len() - i,
    {
        let c: char = t[i];
        assert(body[i - start] == c);
        assert(is_digit(c));
        let d: u128 = (c as u32 - '0' as u32) as u128;
        proof {
            lemma_digits_value_step(body, i - start);
        }
        let next: u128 = acc * 10 + d;
        if next > limit {
            proof {
                lemma_digits_value_monotonic(body, i - start + 1);
                assert(!negative ==> body =~= t@);
            }
            return None;
        }
        acc = next;
        i += 1;
    }
    assert(body.take(body.len() as int) =~= body);
    assert(!negative ==> body =~= t@);
    if negative {
        if acc == 9223372036854775808u128 {
            Some(i64::MIN)
        } else {
            Some(-(acc as i64))
        }
    } else {
        Some(acc as i64)
    }
}

} // verus!
