//! Numbers written in decimal digits.
use vstd::prelude::*;
use vstd::string::*;

verus! {

/// The character of the digit `d`.
pub open spec fn digit_char(d: int) -> char {
    (48 + d) as char
}

/// The decimal digits of `n`, without leading zeros.
pub open spec fn digits(n: nat) -> Seq<char>
    decreases n,
{
    if n < 10 {
        seq![digit_char(n as int)]
    } else {
        digits(n / 10).push(digit_char((n % 10) as int))
    }
}

/// The decimal text of `i`, with a minus sign before a negative number.
pub open spec fn decimal(i: int) -> Seq<char> {
    if i < 0 {
        seq!['-'] + digits((-i) as nat)
    } else {
        digits(i as nat)
    }
}

/// The digits of `n`.
pub fn digits_of(n: u128) -> (r: String)
    ensures
        r@ == digits(n as nat),
    decreases n,
{
    if n < 10 {
        let mut r = String::new();
        r.push((48 + n as u8) as char);
        r
    } else {
        let mut r = digits_of(n / 10);
        r.push((48 + (n % 10) as u8) as char);
        r
    }
}

/// The decimal text of `n`.
pub fn to_decimal(n: i64) -> (r: String)
    ensures
        r@ == decimal(n as int),
{
    if n < 0 {
        let mut r = String::new();
        r.push('-');
        let tail = digits_of((-(n as i128)) as u128);
        r.append(tail.as_str());
        assert(r@ == seq!['-'] + tail@);
        r
    } else {
        digits_of(n as u128)
    }
}

/// The value of a digit character.
pub open spec fn digit_value(c: char) -> int {
    (c as int) - 48
}

/// Whether every character of `s` is a decimal digit.
pub open spec fn all_digits(s: Seq<char>) -> bool {
    forall|i: int| 0 <= i < s.len() ==> '0' <= #[trigger] s[i] <= '9'
}

/// The number that the digits of `s` write.
pub open spec fn digits_value(s: Seq<char>) -> int
    decreases s.len(),
{
    if s.len() == 0 {
        0
    } else {
        digits_value(s.drop_last()) * 10 + digit_value(s.last())
    }
}

/// `s` without one plus sign at its start.
pub open spec fn unsigned_part(s: Seq<char>) -> Seq<char> {
    if s.len() > 0 && s.first() == '+' {
        s.drop_first()
    } else {
        s
    }
}

/// The number that `s` writes as an optional plus sign and decimal digits, where
/// it is at most `max`.
pub open spec fn written_number(s: Seq<char>, max: int) -> Option<int> {
    let tail = unsigned_part(s);
    if tail.len() > 0 && all_digits(tail) && digits_value(tail) <= max {
        Some(digits_value(tail))
    } else {
        None
    }
}

proof fn digits_value_grows(s: Seq<char>, n: int)
    requires
        0 <= n <= s.len(),
        all_digits(s),
    ensures
        0 <= digits_value(s.take(n)) <= digits_value(s),
    decreases s.len(),
{
    if n == s.len() {
        assert(s.take(n) == s);
        if n > 0 {
            assert(all_digits(s.drop_last()));
            digits_value_grows(s.drop_last(), n - 1);
        }
    } else {
        let t = s.drop_last();
        assert(all_digits(t));
        assert(t.take(n) == s.take(n));
        digits_value_grows(t, n);
        assert('0' <= s[s.len() - 1] <= '9');
    }
}

/// Reads an optional plus sign and decimal digits as a number of at most `max`.
pub fn parse_number(s: &str, max: u64) -> (r: Option<u64>)
    ensures
        match r {
            Some(n) => written_number(s@, max as int) == Some(n as int),
            None => written_number(s@, max as int) is None,
        },
{
    let chars = crate::text::chars_of(s);
    let mut i: usize = if chars.len() > 0 && chars[0] == '+' {
        1
    } else {
        0
    };
    let ghost start = i as int;
    let ghost tail = unsigned_part(s@);
    assert(tail == chars@.skip(start));
    if i == chars.len() {
        return None;
    }
    let mut n: u64 = 0;
    assert(tail.take(0) == Seq::<char>::empty());
    while i < chars.len()
        invariant
            0 <= start <= i <= chars@.len(),
            tail == chars@.skip(start),
            tail == unsigned_part(s@),
            n <= max,
            n == digits_value(tail.take(i - start)),
            forall|j: int| 0 <= j < i - start ==> '0' <= #[trigger] tail[j] <= '9',
        decreases chars@.len() - i,
    {
        let c = chars[i];
        assert(tail[i - start] == c);
        if c < '0' || c > '9' {
            return None;
        }
        let d: u64 = (c as u32 - 48) as u64;
        let wide: u128 = n as u128 * 10 + d as u128;
        proof {
            let next = tail.take(i - start + 1);
            assert(next.drop_last() == tail.take(i - start));
            assert(next.last() == c);
            assert(digits_value(next) == wide);
        }
        if wide > max as u128 {
            proof {
                if all_digits(tail) {
                    digits_value_grows(tail, i - start + 1);
                }
            }
            return None;
        }
        n = wide as u64;
        i = i + 1;
    }
    assert(tail.take(tail.len() as int) == tail);
    Some(n)
}

proof fn digits_are_digits(n: nat)
    ensures
        digits(n).len() > 0,
        all_digits(digits(n)),
    decreases n,
{
    if n >= 10 {
        digits_are_digits(n / 10);
    }
}

proof fn digits_tell_numbers_apart(a: nat, b: nat)
    requires
        digits(a) == digits(b),
    ensures
        a == b,
    decreases a,
{
    digits_are_digits(a / 10);
    digits_are_digits(b / 10);
    assert(digits(a).last() == digit_char((a % 10) as int));
    assert(digits(b).last() == digit_char((b % 10) as int));
    if a >= 10 && b >= 10 {
        assert(digits(a).drop_last() =~= digits(a / 10));
        assert(digits(b).drop_last() =~= digits(b / 10));
        digits_tell_numbers_apart(a / 10, b / 10);
    }
}

/// Different numbers have different texts, of digits and perhaps a minus sign.
pub proof fn decimal_tells_numbers_apart(a: int, b: int)
    ensures
        decimal(a) == decimal(b) <==> a == b,
        forall|i: int| 0 <= i < decimal(a).len() ==> '0' <= #[trigger] decimal(a)[i] <= '9'
            || decimal(a)[i] == '-',
{
    let x = if a < 0 {
        (-a) as nat
    } else {
        a as nat
    };
    let y = if b < 0 {
        (-b) as nat
    } else {
        b as nat
    };
    digits_are_digits(x);
    digits_are_digits(y);
    assert forall|i: int| 0 <= i < decimal(a).len() implies '0' <= #[trigger] decimal(a)[i] <= '9'
        || decimal(a)[i] == '-' by {
        if a < 0 && i > 0 {
            assert(digits(x)[i - 1] == decimal(a)[i]);
        }
    }
    if decimal(a) == decimal(b) {
        assert('0' <= digits(x)[0] <= '9');
        assert('0' <= digits(y)[0] <= '9');
        if a < 0 {
            assert(decimal(a)[0] == '-');
            assert(b < 0);
            assert(decimal(a).skip(1) =~= digits(x));
            assert(decimal(b).skip(1) =~= digits(y));
        } else if b < 0 {
            assert(decimal(b)[0] == '-');
        }
        digits_tell_numbers_apart(x, y);
    }
}

/// A number in digits is read back as the number, also behind a plus sign, where it is
/// within the limit and not negative; nothing else than digits is read as one.
pub proof fn written_numbers_are_read_back(n: int, max: int, s: Seq<char>)
    requires
        n >= 0,
    ensures
        n <= max ==> written_number(decimal(n), max) == Some(n) && written_number(
            seq!['+'] + decimal(n),
            max,
        ) == Some(n),
        n > max ==> written_number(decimal(n), max) is None,
        s.len() == 0 ==> written_number(s, max) is None,
        (exists|i: int|
            0 <= i < s.len() && !('0' <= #[trigger] s[i] <= '9') && !(i == 0 && s[i] == '+'))
            ==> written_number(s, max) is None,
{
    digits_are_read_back(n as nat);
    let d = digits(n as nat);
    assert(unsigned_part(d) == d);
    assert((seq!['+'] + d).drop_first() =~= d);
    if exists|i: int|
        0 <= i < s.len() && !('0' <= #[trigger] s[i] <= '9') && !(i == 0 && s[i] == '+') {
        let i = choose|i: int|
            0 <= i < s.len() && !('0' <= #[trigger] s[i] <= '9') && !(i == 0 && s[i] == '+');
        let tail = unsigned_part(s);
        if s.first() == '+' {
            assert(tail[i - 1] == s[i]);
        } else {
            assert(tail[i] == s[i]);
        }
    }
}

proof fn digits_are_read_back(n: nat)
    ensures
        digits(n).len() > 0,
        all_digits(digits(n)),
        digits_value(digits(n)) == n,
    decreases n,
{
    if n < 10 {
        reveal_with_fuel(digits_value, 2);
        assert(seq![digit_char(n as int)].drop_last() =~= Seq::<char>::empty());
    } else {
        digits_are_read_back(n / 10);
        let last = digit_char((n % 10) as int);
        assert(digits(n).drop_last() =~= digits(n / 10));
        assert('0' <= last <= '9');
    }
}

/// A digit more at the end of a number is a digit more at the end of its text; a negative
/// number has a minus sign before it.
pub proof fn digits_follow_each_other(n: int, d: int)
    requires
        n > 0,
        0 <= d < 10,
    ensures
        decimal(10 * n + d) == decimal(n).push((48 + d) as char),
        decimal(d) == seq![(48 + d) as char],
        decimal(-n) == seq!['-'] + decimal(n),
{
    let m = (10 * n + d) as nat;
    assert(m / 10 == n as nat && m % 10 == d as nat);
}

} // verus!
