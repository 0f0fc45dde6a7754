//! Decimal numbers as text, and comparison of strings.
use vstd::prelude::*;

verus! {

/// Whether `c` is one of the ten ASCII digits.
pub open spec fn is_digit(c: char) -> bool {
    '0' <= c && c <= '9'
}

/// Whether every character of `s` is an ASCII digit.
pub open spec fn all_digits(s: Seq<char>) -> bool {
    forall|i: int| 0 <= i < s.len() ==> is_digit(#[trigger] s[i])
}

/// The number that a sequence of digits writes in base ten, most significant digit first.
pub open spec fn digits_value(s: Seq<char>) -> nat
    decreases s.len(),
{
    if s.len() == 0 {
        0
    } else {
        digits_value(s.drop_last()) * 10 + (s.last() as nat - '0' as nat) as nat
    }
}

/// The digits of an unsigned number as written: what follows an optional leading `+`.
pub open spec fn unsigned_body(s: Seq<char>) -> Seq<char> {
    if s.len() > 0 && s[0] == '+' {
        s.drop_first()
    } else {
        s
    }
}

/// The number written by `s`: an optional `+`, then one or more ASCII digits and nothing else.
pub open spec fn decimal_value(s: Seq<char>) -> Option<nat> {
    let body = unsigned_body(s);
    if body.len() > 0 && all_digits(body) {
        Some(digits_value(body))
    } else {
        None
    }
}

/// `decimal_value`, where the number does not exceed `max`.
pub open spec fn decimal_up_to(s: Seq<char>, max: nat) -> Option<nat> {
    match decimal_value(s) {
        Some(v) => if v <= max {
            Some(v)
        } else {
            None
        },
        None => None,
    }
}

/// The ASCII digit for `d`, where `d` is below ten.
pub open spec fn digit_char(d: nat) -> char {
    ('0' as nat + d) as char
}

/// The decimal digits of `n`, without leading zeros.
pub open spec fn decimal_digits(n: nat) -> Seq<char>
    decreases n,
{
    if n < 10 {
        seq![digit_char(n)]
    } else {
        decimal_digits(n / 10).push(digit_char(n % 10))
    }
}

proof fn lemma_digits_value_monotone(s: Seq<char>, i: int)
    requires
        0 <= i <= s.len(),
    ensures
        digits_value(s.take(i)) <= digits_value(s),
    decreases s.len() - i,
{
    if i == s.len() {
        assert(s.take(i) =~= s);
    } else {
        lemma_digits_value_monotone(s, i + 1);
        assert(s.take(i + 1).drop_last() =~= s.take(i));
    }
}

proof fn lemma_decimal_digits(n: nat)
    ensures
        decimal_digits(n).len() > 0,
        all_digits(decimal_digits(n)),
        digits_value(decimal_digits(n)) == n,
    decreases n,
{
    if n < 10 {
        let s = decimal_digits(n);
        assert(s.drop_last() =~= Seq::<char>::empty());
        assert(digits_value(s.drop_last()) == 0);
    } else {
        lemma_decimal_digits(n / 10);
        assert(decimal_digits(n).drop_last() =~= decimal_digits(n / 10));
    }
}

/// Reading back the decimal digits of a number gives the number.
pub proof fn law_decimal_round_trip(n: nat)
    ensures
        decimal_value(decimal_digits(n)) == Some(n),
{
    lemma_decimal_digits(n);
    assert(is_digit(decimal_digits(n)[0]));
}

/// Different numbers have different decimal digits.
pub proof fn law_decimal_digits_injective(a: nat, b: nat)
    requires
        decimal_digits(a) == decimal_digits(b),
    ensures
        a == b,
{
    law_decimal_round_trip(a);
    law_decimal_round_trip(b);
}

/// What is read as a number: one digit is read as that digit, one digit more makes ten times the
/// number and the digit, and a plus sign before a number that has none changes nothing.
pub proof fn law_numbers_grow_by_digits(s: Seq<char>, c: char)
    ensures
        '0' <= c && c <= '9' ==> decimal_value(seq![c]) == Some((c as nat - '0' as nat) as nat),
        '0' <= c && c <= '9' && decimal_value(s) is Some ==> decimal_value(s.push(c)) == Some(
            (10 * decimal_value(s)->Some_0 + (c as nat - '0' as nat)) as nat,
        ),
        s.len() > 0 && s[0] != '+' ==> decimal_value(seq!['+'] + s) == decimal_value(s),
{
    if '0' <= c && c <= '9' {
        let one = seq![c];
        assert(one.drop_last() =~= Seq::<char>::empty());
        assert(digits_value(one.drop_last()) == 0);
        assert(is_digit(one[0]));
        if decimal_value(s) is Some {
            let body = unsigned_body(s);
            let next = unsigned_body(s.push(c));
            assert(next =~= body.push(c));
            assert(next.drop_last() =~= body);
            assert(all_digits(next));
        }
    }
    if s.len() > 0 && s[0] != '+' {
        assert((seq!['+'] + s).drop_first() =~= s);
    }
}

/// What is not read as a number: nothing at all, a plus sign alone, and whatever holds a character
/// that is no digit, but for a plus sign at its start; all else is, where it is not too large.
pub proof fn law_only_digits_are_numbers(s: Seq<char>, max: nat)
    ensures
        decimal_value(s) is Some <==> (exists|i: int|
            0 <= i < s.len() && '0' <= #[trigger] s[i] && s[i] <= '9') && (forall|i: int|
            0 <= i < s.len() ==> ('0' <= #[trigger] s[i] && s[i] <= '9') || (i == 0 && s[0]
                == '+')),
        decimal_up_to(s, max) is Some <==> decimal_value(s) is Some && decimal_value(s)->Some_0
            <= max,
        decimal_up_to(s, max) is Some ==> decimal_up_to(s, max) == decimal_value(s),
{
    let body = unsigned_body(s);
    let plus = s.len() > 0 && s[0] == '+';
    let first: int = if plus {
        1
    } else {
        0
    };
    assert(body.len() == s.len() - first);
    assert(forall|j: int| 0 <= j < body.len() ==> #[trigger] body[j] == s[j + first]);
    if decimal_value(s) is Some {
        assert(is_digit(body[0]));
        assert('0' <= s[first] && s[first] <= '9');
        assert forall|i: int| 0 <= i < s.len() implies ('0' <= #[trigger] s[i] && s[i] <= '9') || (i
            == 0 && s[0] == '+') by {
            if i >= first {
                assert(is_digit(body[i - first]));
            }
        }
    }
    if (exists|i: int| 0 <= i < s.len() && '0' <= #[trigger] s[i] && s[i] <= '9') && (forall|i: int|
        0 <= i < s.len() ==> ('0' <= #[trigger] s[i] && s[i] <= '9') || (i == 0 && s[0] == '+')) {
        let d = choose|i: int| 0 <= i < s.len() && '0' <= #[trigger] s[i] && s[i] <= '9';
        assert(d >= first);
        assert forall|j: int| 0 <= j < body.len() implies is_digit(#[trigger] body[j]) by {
            assert(body[j] == s[j + first]);
            assert(('0' <= s[j + first] && s[j + first] <= '9') || (j + first == 0 && s[0]
                == '+'));
        }
    }
}

/// The decimal digits of a number start with a zero only where the number is zero.
pub proof fn law_no_leading_zeros(n: nat)
    ensures
        decimal_digits(n).len() > 0,
        n > 0 ==> decimal_digits(n)[0] != '0',
        n == 0 ==> decimal_digits(n) == seq!['0'],
    decreases n,
{
    if n >= 10 {
        law_no_leading_zeros(n / 10);
        assert(decimal_digits(n)[0] == decimal_digits(n / 10)[0]);
    }
}

/// Whether two strings hold the same characters.
pub fn str_eq(a: &str, b: &str) -> (r: bool)
    ensures
        r == (a@ == b@),
{
    a.to_owned() == b.to_owned()
}

/// Reads an unsigned decimal number that does not exceed `max`.
fn parse_decimal(s: &str, max: u64) -> (r: Option<u64>)
    ensures
        match r {
            Some(v) => decimal_up_to(s@, max as nat) == Some(v as nat),
            None => decimal_up_to(s@, max as nat) is None,
        },
{
    if !s.is_ascii() {
        proof {
            let i = choose|i: int| 0 <= i < s@.len() && !('\0' <= #[trigger] s@[i] <= '\u{7f}');
            assert(!is_digit(s@[i]) && s@[i] != '+');
            let body = unsigned_body(s@);
            let j = if body == s@ { i } else { i - 1 };
            assert(body[j] == s@[i]);
        }
        return None;
    }
    let bytes = s.as_bytes();
    let n: usize = bytes.len();
    let ghost body = unsigned_body(s@);
    let start: usize = if n > 0 && bytes[0] == 43u8 {
        1
    } else {
        0
    };
    assert(bytes@.len() == s@.len());
    assert forall|i: int| 0 <= i < s@.len() implies bytes@[i] == #[trigger] s@[i] as int by {
        assert(bytes@[i] == s@[i] as u8);
        assert('\0' <= s@[i] <= '\u{7f}');
    }
    assert(n > 0 && bytes@[0] == 43u8 ==> s@[0] == '+');
    assert(body =~= s@.skip(start as int));
    if start == n {
        return None;
    }
    let mut value: u64 = 0;
    let mut i: usize = start;
    while i < n
        invariant
            start <= i <= n,
            n == bytes@.len(),
            n == s@.len(),
            body == s@.skip(start as int),
            body == unsigned_body(s@),
            n > start,
            forall|j: int| 0 <= j < s@.len() ==> bytes@[j] == #[trigger] s@[j] as int,
            all_digits(body.take(i - start)),
            value == digits_value(body.take(i - start)),
            value <= max,
        decreases n - i,
    {
        let b = bytes[i];
        let ghost k = i - start;
        assert(body[k] == s@[i as int]);
        assert(b == body[k] as int);
        if b < 48u8 || b > 57u8 {
            assert(!is_digit(body[k]));
            return None;
        }
        let d: u64 = (b - 48u8) as u64;
        assert(body.take(k + 1).drop_last() =~= body.take(k));
        assert(digits_value(body.take(k + 1)) == value * 10 + d);
        assert forall|j: int| 0 <= j < k + 1 implies is_digit(#[trigger] body.take(k + 1)[j]) by {
            if j < k {
                assert(is_digit(body.take(k)[j]));
            }
        }
        proof {
            lemma_digits_value_monotone(body, k + 1);
        }
        if d > max || value > (max - d) / 10 {
            return None;
        }
        value = value * 10 + d;
        i = i + 1;
    }
    assert(body.take(n - start) =~= body);
    Some(value)
}

/// Reads an unsigned decimal number that fits in 64 bits.
pub fn try_parse_u64(s: &str) -> (r: Option<u64>)
    ensures
        match r {
            Some(v) => decimal_up_to(s@, u64::MAX as nat) == Some(v as nat),
            None => decimal_up_to(s@, u64::MAX as nat) is None,
        },
{
    parse_decimal(s, u64::MAX)
}

/// Reads an unsigned decimal number that fits in a machine word.
pub fn try_parse_usize(s: &str) -> (r: Option<usize>)
    ensures
        match r {
            Some(v) => decimal_up_to(s@, usize::MAX as nat) == Some(v as nat),
            None => decimal_up_to(s@, usize::MAX as nat) is None,
        },
{
    match parse_decimal(s, usize::MAX as u64) {
        Some(v) => Some(v as usize),
        None => None,
    }
}

/// Reads the command line value `s` of the argument `name`, which has to be an unsigned decimal
/// number of at most 64 bits; `try_parse_u64` tells whether it is.
pub fn parse_u64(s: &str, name: &str) -> (r: u64)
    requires
        decimal_up_to(s@, u64::MAX as nat) is Some,
    ensures
        decimal_up_to(s@, u64::MAX as nat) == Some(r as nat),
{
    match try_parse_u64(s) {
        Some(v) => v,
        None => 0,
    }
}

/// The text of one ASCII digit.
fn digit_str(d: usize) -> (r: &'static str)
    requires
        d < 10,
    ensures
        r@ == seq![digit_char(d as nat)],
{
    proof {
        reveal_strlit("0");
        reveal_strlit("1");
        reveal_strlit("2");
        reveal_strlit("3");
        reveal_strlit("4");
        reveal_strlit("5");
        reveal_strlit("6");
        reveal_strlit("7");
        reveal_strlit("8");
        reveal_strlit("9");
    }
    let r = match d {
        0 => "0",
        1 => "1",
        2 => "2",
        3 => "3",
        4 => "4",
        5 => "5",
        6 => "6",
        7 => "7",
        8 => "8",
        _ => "9",
    };
    assert(r@ =~= seq![digit_char(d as nat)]);
    r
}

/// Writes a number in decimal.
pub fn decimal_string(n: usize) -> (r: String)
    ensures
        r@ == decimal_digits(n as nat),
    decreases n,
{
    let last = digit_str(n % 10);
    let mut r = if n < 10 {
        String::new()
    } else {
        decimal_string(n / 10)
    };
    r.append(last);
    assert(r@ =~= decimal_digits(n as nat));
    r
}

} // verus!
