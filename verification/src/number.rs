//! Unsigned numbers and their decimal notation.
use vstd::prelude::*;
use vstd::string::*;

use crate::text::chars_of;

verus! {

/// The decimal digits, each at its own value.
pub open spec fn digits() -> Seq<char> {
    "0123456789"@
}

/// `n` in decimal notation, without leading zeros.
pub open spec fn decimal(n: nat) -> Seq<char>
    decreases n,
{
    if n < 10 {
        seq![digits()[n as int]]
    } else {
        decimal(n / 10).push(digits()[(n % 10) as int])
    }
}

/// The characters `0` to `9`.
pub open spec fn is_digit(c: char) -> bool {
    '0' <= c <= '9'
}

/// The value of a digit.
pub open spec fn digit_value(c: char) -> nat {
    (c as int - '0' as int) as nat
}

/// The number that a sequence of digits denotes.
pub open spec fn digits_value(s: Seq<char>) -> nat
    decreases s.len(),
{
    if s.len() == 0 {
        0
    } else {
        digits_value(s.drop_last()) * 10 + digit_value(s.last())
    }
}

/// Whether `s` consists of digits only.
pub open spec fn all_digits(s: Seq<char>) -> bool {
    forall|i: int| 0 <= i < s.len() ==> is_digit(#[trigger] s[i])
}

/// Why a text does not denote an unsigned number.
#[derive(Clone, Copy, Debug, PartialEq, Eq, Structural)]
pub enum NumberFault {
    /// The text is empty.
    Empty,
    /// A character that is no digit stands where a digit is needed.
    InvalidDigit,
    /// The number is larger than the largest one allowed.
    TooLarge,
}

/// `s` without the sign `+` that it may start with.
pub open spec fn unsigned_body(s: Seq<char>) -> Seq<char> {
    if s.len() > 1 && s.first() == '+' {
        s.drop_first()
    } else {
        s
    }
}

/// The place of the first character at which reading `s` as a number up to `max` fails, if
/// there is one: it is no digit, or the number is too large once it is read.
pub open spec fn fault_at(s: Seq<char>, max: nat, i: int) -> bool {
    &&& 0 <= i < s.len()
    &&& all_digits(s.take(i))
    &&& digits_value(s.take(i)) <= max
    &&& !is_digit(s[i]) || digits_value(s.take(i + 1)) > max
}

/// What reading `s` as an unsigned number up to `max` gives: digits, with one sign `+` allowed
/// before them.
pub open spec fn unsigned_value(s: Seq<char>, max: nat) -> Result<nat, NumberFault> {
    let body = unsigned_body(s);
    if s.len() == 0 {
        Err(NumberFault::Empty)
    } else if all_digits(body) && digits_value(body) <= max {
        Ok(digits_value(body))
    } else if exists|i: int| #[trigger] fault_at(body, max, i) && !is_digit(body[i]) {
        Err(NumberFault::InvalidDigit)
    } else {
        Err(NumberFault::TooLarge)
    }
}

/// Reading more digits never makes the number smaller.
pub proof fn lemma_value_grows(s: Seq<char>, i: int, j: int)
    requires
        0 <= i <= j <= s.len(),
        all_digits(s),
    ensures
        digits_value(s.take(i)) <= digits_value(s.take(j)),
    decreases j - i,
{
    if i < j {
        lemma_value_grows(s, i, j - 1);
        assert(s.take(j).drop_last() =~= s.take(j - 1));
        assert(is_digit(s[j - 1]));
    }
}

/// At most one place is the first at which reading fails.
proof fn lemma_fault_unique(s: Seq<char>, max: nat, i: int, j: int)
    requires
        fault_at(s, max, i),
        fault_at(s, max, j),
        i <= j,
    ensures
        i == j,
{
    if i < j {
        assert(s.take(j)[i] == s[i]);
        assert(is_digit(s.take(j)[i]));
        lemma_value_grows(s.take(j), i + 1, j);
        assert(s.take(j).take(i + 1) =~= s.take(i + 1));
        assert(s.take(j).take(j) =~= s.take(j));
    }
}

/// A number that is read with a fault at `i` is no number up to `max`.
proof fn lemma_fault_excludes(s: Seq<char>, max: nat, i: int)
    requires
        fault_at(s, max, i),
    ensures
        !(all_digits(s) && digits_value(s) <= max),
{
    if all_digits(s) {
        assert(is_digit(s[i]));
        lemma_value_grows(s, i + 1, s.len() as int);
        assert(s.take(s.len() as int) =~= s);
    }
}

/// Reads `s` as an unsigned number up to `max`: one sign `+` is allowed, then digits only.
pub fn parse_unsigned(s: &str, max: u64) -> (r: Result<u64, NumberFault>)
    ensures
        match r {
            Ok(n) => unsigned_value(s@, max as nat) == Ok::<nat, NumberFault>(n as nat),
            Err(e) => unsigned_value(s@, max as nat) == Err::<nat, NumberFault>(e),
        },
{
    let chars = chars_of(s);
    let n: usize = chars.len();
    if n == 0 {
        return Err(NumberFault::Empty);
    }
    let start: usize = if n > 1 && chars[0] == '+' {
        1
    } else {
        0
    };
    let ghost body = unsigned_body(s@);
    proof {
        assert(body =~= s@.skip(start as int));
        assert(body.take(0) =~= Seq::<char>::empty());
    }
    let mut value: u64 = 0;
    let mut i: usize = start;
    while i < n
        invariant
            start <= i <= n,
            start <= 1,
            n == chars.len(),
            n > 0,
            chars@ == s@,
            body == unsigned_body(s@),
            body == s@.skip(start as int),
            all_digits(body.take(i - start)),
            value == digits_value(body.take(i - start)),
            value <= max,
        decreases n - i,
    {
        let c = chars[i];
        let ghost k = i - start;
        proof {
            assert(body[k] == c);
            assert(body.take(k + 1).drop_last() =~= body.take(k));
            assert(body.take(k + 1).last() == c);
        }
        if !(c >= '0' && c <= '9') {
            proof {
                assert(fault_at(body, max as nat, k));
                lemma_fault_excludes(body, max as nat, k);
            }
            return Err(NumberFault::InvalidDigit);
        }
        let d: u64 = (c as u32 - '0' as u32) as u64;
        if value > max / 10 || d > max - value * 10 {
            proof {
                assert(digits_value(body.take(k + 1)) > max);
                assert(fault_at(body, max as nat, k));
                lemma_fault_excludes(body, max as nat, k);
                assert forall|j: int| #[trigger] fault_at(body, max as nat, j) implies is_digit(
                    body[j],
                ) by {
                    if j < k {
                        lemma_fault_unique(body, max as nat, j, k);
                    } else {
                        lemma_fault_unique(body, max as nat, k, j);
                    }
                }
            }
            return Err(NumberFault::TooLarge);
        }
        value = value * 10 + d;
        proof {
            assert forall|j: int| 0 <= j < k + 1 implies is_digit(#[trigger] body.take(k + 1)[j]) by {
                if j < k {
                    assert(body.take(k)[j] == body.take(k + 1)[j]);
                }
            }
        }
        i = i + 1;
    }
    proof {
        assert(body.take(n - start) =~= body);
    }
    Ok(value)
}

/// `n` in decimal notation.
pub fn decimal_text(n: u64) -> (r: String)
    ensures
        r@ == decimal(n as nat),
    decreases n,
{
    let ones: usize = (n % 10) as usize;
    proof {
        reveal_strlit("0123456789");
    }
    let last = "0123456789".substring_char(ones, ones + 1);
    if n < 10 {
        let r = last.to_owned();
        proof {
            assert(r@ =~= decimal(n as nat));
        }
        r
    } else {
        let mut r = decimal_text(n / 10);
        r.append(last);
        proof {
            assert(r@ =~= decimal(n as nat));
        }
        r
    }
}

/// A number's decimal notation is made of digits and denotes the number.
pub proof fn lemma_decimal_value(n: nat)
    ensures
        decimal(n).len() > 0,
        all_digits(decimal(n)),
        digits_value(decimal(n)) == n,
    decreases n,
{
    reveal_strlit("0123456789");
    let d = digits()[(n % 10) as int];
    assert(is_digit(d) && digit_value(d) == n % 10);
    if n < 10 {
        assert(decimal(n).drop_last() =~= Seq::<char>::empty());
        assert(digits_value(Seq::<char>::empty()) == 0);
    } else {
        lemma_decimal_value(n / 10);
        assert(decimal(n).drop_last() =~= decimal(n / 10));
        assert forall|i: int| 0 <= i < decimal(n).len() implies is_digit(#[trigger] decimal(n)[i]) by {
            if i < decimal(n).len() - 1 {
                assert(decimal(n)[i] == decimal(n / 10)[i]);
            }
        }
    }
}

/// Reading a number's decimal notation gives the number back.
pub proof fn law_decimal_round_trip(n: nat, max: nat)
    requires
        n <= max,
    ensures
        unsigned_value(decimal(n), max) == Ok::<nat, NumberFault>(n),
{
    lemma_decimal_value(n);
    assert(is_digit(decimal(n)[0]));
}

/// A digit that is put behind a number's notation makes ten times the number and the digit.
pub proof fn law_decimal_digit_by_digit(n: nat, d: nat)
    requires
        d < 10,
    ensures
        decimal(d) == seq![(48 + d) as char],
        n > 0 ==> decimal(10 * n + d) == decimal(n).push((48 + d) as char),
        digits_value(Seq::empty()) == 0,
        forall|s: Seq<char>| #[trigger]
            digits_value(s.push((48 + d) as char)) == 10 * digits_value(s) + d,
{
    reveal_strlit("0123456789");
    assert(digits()[d as int] == (48 + d) as char);
    if n > 0 {
        assert((10 * n + d) / 10 == n);
        assert((10 * n + d) % 10 == d as int);
    }
    assert forall|s: Seq<char>| #[trigger] digits_value(s.push((48 + d) as char)) == 10
        * digits_value(s) + d by {
        assert(s.push((48 + d) as char).drop_last() =~= s);
    }
}

/// A text reads as a number exactly if it is made of digits, which one sign `+` may precede, and
/// the number that they denote is none too large; it then reads as that number.
pub proof fn law_reads_digits_only(s: Seq<char>, body: Seq<char>, max: nat)
    requires
        s.len() > 0,
        body == (if s.len() > 1 && s[0] == '+' {
            s.skip(1)
        } else {
            s
        }),
    ensures
        unsigned_value(s, max) is Ok <==> (forall|i: int|
            0 <= i < body.len() ==> '0' <= #[trigger] body[i] <= '9') && digits_value(body) <= max,
        unsigned_value(s, max) is Ok ==> unsigned_value(s, max)->Ok_0 == digits_value(body),
{
    assert(unsigned_body(s) =~= body);
}

/// Nothing is no number.
pub proof fn law_empty_text_is_no_number(max: nat)
    ensures
        unsigned_value(Seq::empty(), max) == Err::<nat, NumberFault>(NumberFault::Empty),
{
}

/// Where reading fails is at the first character that is no digit or takes the number over the
/// largest one allowed, and that character says why: a character that is no digit is named as
/// such, whatever the number before it, and whatever follows.
pub proof fn law_first_fault_counts(
    s: Seq<char>,
    sign: Seq<char>,
    before: Seq<char>,
    c: char,
    rest: Seq<char>,
    max: nat,
)
    requires
        s == sign + before + seq![c] + rest,
        sign.len() == 0 || sign == seq!['+'],
        sign.len() == 0 ==> s[0] != '+' || s.len() == 1,
        forall|i: int| 0 <= i < before.len() ==> '0' <= #[trigger] before[i] <= '9',
        digits_value(before) <= max,
    ensures
        !('0' <= c <= '9') ==> unsigned_value(s, max) == Err::<nat, NumberFault>(
            NumberFault::InvalidDigit,
        ),
        '0' <= c <= '9' && digits_value(before.push(c)) > max ==> unsigned_value(s, max) == Err::<
            nat,
            NumberFault,
        >(NumberFault::TooLarge),
{
    let body = unsigned_body(s);
    let k = before.len() as int;
    assert(body =~= before + seq![c] + rest);
    assert(body.take(k) =~= before);
    assert(body.take(k + 1) =~= before.push(c));
    if !('0' <= c <= '9') || digits_value(before.push(c)) > max {
        assert(body[k] == c);
        assert(fault_at(body, max, k));
        lemma_fault_excludes(body, max, k);
        assert forall|j: int| #[trigger] fault_at(body, max, j) implies j == k by {
            if j < k {
                lemma_fault_unique(body, max, j, k);
            } else {
                lemma_fault_unique(body, max, k, j);
            }
        }
    }
}

} // verus!
