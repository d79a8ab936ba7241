//! Whole numbers as text: how they are read from the command line and how they are written into
//! messages.

use vstd::arithmetic::power::pow;
use vstd::prelude::*;

use crate::text::chars_of;

verus! {

/// A decimal digit.
pub open spec fn is_digit(c: char) -> bool {
    '0' <= c <= '9'
}

/// The number that a decimal digit stands for.
pub open spec fn digit_value(c: char) -> int {
    c as int - '0' as int
}

/// Whether `s` holds decimal digits only, and at least one.
pub open spec fn is_digits(s: Seq<char>) -> bool {
    &&& s.len() > 0
    &&& forall|i: int| 0 <= i < s.len() ==> is_digit(#[trigger] s[i])
}

/// The number that decimal digits stand for, the most significant one first.
pub open spec fn digits_value(s: Seq<char>) -> int
    decreases s.len(),
{
    if s.len() == 0 {
        0
    } else {
        digits_value(s.drop_last()) * 10 + digit_value(s.last())
    }
}

/// The whole number that `s` writes: digits, with a `+` before them or not, or, where `signed`
/// holds, with a `-`.
pub open spec fn whole_number(s: Seq<char>, signed: bool) -> Option<int> {
    if s.len() > 0 && s[0] == '+' && is_digits(s.skip(1)) {
        Some(digits_value(s.skip(1)))
    } else if signed && s.len() > 0 && s[0] == '-' && is_digits(s.skip(1)) {
        Some(-digits_value(s.skip(1)))
    } else if is_digits(s) {
        Some(digits_value(s))
    } else {
        None
    }
}

/// The `u32` that `s` writes, if it writes one.
pub open spec fn u32_of(s: Seq<char>) -> Option<u32> {
    match whole_number(s, false) {
        Some(n) => if n <= u32::MAX {
            Some(n as u32)
        } else {
            None
        },
        None => None,
    }
}

/// The `i32` that `s` writes, if it writes one.
pub open spec fn i32_of(s: Seq<char>) -> Option<i32> {
    match whole_number(s, true) {
        Some(n) => if i32::MIN <= n <= i32::MAX {
            Some(n as i32)
        } else {
            None
        },
        None => None,
    }
}

/// The digit for `d`, which is below sixteen, in lower case.
pub open spec fn digit_char(d: int) -> char {
    if d < 10 {
        ('0' as int + d) as char
    } else {
        ('a' as int + (d - 10)) as char
    }
}

/// `n` in decimal, without leading zeros.
pub open spec fn decimal(n: nat) -> Seq<char>
    decreases n,
{
    if n < 10 {
        seq![digit_char(n as int)]
    } else {
        decimal(n / 10).push(digit_char((n % 10) as int))
    }
}

/// `n` in decimal, with a `-` where it is negative.
pub open spec fn signed_decimal(n: int) -> Seq<char> {
    if n < 0 {
        seq!['-'] + decimal((-n) as nat)
    } else {
        decimal(n as nat)
    }
}

/// `n` in hexadecimal, lower case, without leading zeros.
pub open spec fn hexadecimal(n: nat) -> Seq<char>
    decreases n,
{
    if n < 16 {
        seq![digit_char(n as int)]
    } else {
        hexadecimal(n / 16).push(digit_char((n % 16) as int))
    }
}

proof fn lemma_digits_value_nonnegative(s: Seq<char>)
    requires
        forall|i: int| 0 <= i < s.len() ==> is_digit(#[trigger] s[i]),
    ensures
        digits_value(s) >= 0,
    decreases s.len(),
{
    if s.len() > 0 {
        lemma_digits_value_nonnegative(s.drop_last());
    }
}

/// The number that the characters from `from` on write in decimal digits, if it is at most `max`.
fn digits_from(chars: &Vec<char>, from: usize, max: u64) -> (r: Option<u64>)
    requires
        from <= chars.len(),
        max <= 0xffff_ffff,
    ensures
        match r {
            Some(n) => is_digits(chars@.skip(from as int)) && n == digits_value(
                chars@.skip(from as int),
            ) && n <= max,
            None => !is_digits(chars@.skip(from as int)) || digits_value(chars@.skip(from as int))
                > max,
        },
{
    let ghost s = chars@.skip(from as int);
    if from == chars.len() {
        return None;
    }
    let mut value: u64 = 0;
    let mut i: usize = from;
    while i < chars.len()
        invariant
            from <= i <= chars.len(),
            max <= 0xffff_ffff,
            s == chars@.skip(from as int),
            forall|j: int| 0 <= j < i - from ==> is_digit(#[trigger] s[j]),
            value <= max ==> value == digits_value(s.take(i - from)),
            value > max ==> digits_value(s.take(i - from)) > max,
        decreases chars.len() - i,
    {
        let c: char = chars[i];
        proof {
            assert(s[i - from] == c);
            assert(s.take(i + 1 - from).drop_last() =~= s.take(i - from));
        }
        if !('0' <= c && c <= '9') {
            return None;
        }
        if value <= max {
            value = value * 10 + (c as u64 - '0' as u64);
        }
        i += 1;
    }
    proof {
        assert(s.take(i - from) =~= s);
    }
    if value <= max {
        Some(value)
    } else {
        None
    }
}

/// The `u32` that `s` writes: digits, with a `+` before them or not.
pub fn parse_u32(s: &str) -> (r: Option<u32>)
    ensures
        r == u32_of(s@),
{
    let chars: Vec<char> = chars_of(s);
    let plus: bool = chars.len() > 0 && chars[0] == '+';
    let from: usize = if plus {
        1
    } else {
        0
    };
    proof {
        assert(s@.skip(0) =~= s@);
        if plus {
            assert(!is_digit(s@[0]));
        }
    }
    match digits_from(&chars, from, u32::MAX as u64) {
        Some(n) => Some(n as u32),
        None => None,
    }
}

/// The `i32` that `s` writes: digits, with a sign before them or not.
pub fn parse_i32(s: &str) -> (r: Option<i32>)
    ensures
        r == i32_of(s@),
{
    let chars: Vec<char> = chars_of(s);
    let minus: bool = chars.len() > 0 && chars[0] == '-';
    let plus: bool = chars.len() > 0 && chars[0] == '+';
    let from: usize = if plus || minus {
        1
    } else {
        0
    };
    let max: u64 = if minus {
        0x8000_0000
    } else {
        0x7fff_ffff
    };
    proof {
        assert(s@.skip(0) =~= s@);
        if plus || minus {
            assert(!is_digit(s@[0]));
        }
        if is_digits(s@.skip(from as int)) {
            lemma_digits_value_nonnegative(s@.skip(from as int));
        }
    }
    match digits_from(&chars, from, max) {
        Some(n) => Some(
            if minus {
                (-(n as i64)) as i32
            } else {
                n as i32
            },
        ),
        None => None,
    }
}

/// The digit for `d`.
fn digit_text(d: u64) -> (r: &'static str)
    requires
        d < 16,
    ensures
        r@ == seq![digit_char(d as int)],
{
    proof {
        reveal_strlit("0");
        reveal_strlit("1");
        reveal_strlit("2");
        reveal_strlit("3");
        reveal_strlit("4");
        reveal_strlit("5");
        reveal_strlit("6");
        reveal_strlit("7");
        reveal_strlit("8");
        reveal_strlit("9");
        reveal_strlit("a");
        reveal_strlit("b");
        reveal_strlit("c");
        reveal_strlit("d");
        reveal_strlit("e");
        reveal_strlit("f");
    }
    if d == 0 {
        "0"
    } else if d == 1 {
        "1"
    } else if d == 2 {
        "2"
    } else if d == 3 {
        "3"
    } else if d == 4 {
        "4"
    } else if d == 5 {
        "5"
    } else if d == 6 {
        "6"
    } else if d == 7 {
        "7"
    } else if d == 8 {
        "8"
    } else if d == 9 {
        "9"
    } else if d == 10 {
        "a"
    } else if d == 11 {
        "b"
    } else if d == 12 {
        "c"
    } else if d == 13 {
        "d"
    } else if d == 14 {
        "e"
    } else {
        "f"
    }
}

/// Writes `n` in decimal behind `out`.
pub fn push_decimal(out: &mut String, n: u64)
    ensures
        final(out)@ == old(out)@ + decimal(n as nat),
    decreases n,
{
    if n >= 10 {
        push_decimal(out, n / 10);
    }
    out.append(digit_text(n % 10));
    proof {
        if n >= 10 {
            assert(old(out)@ + decimal(n as nat / 10) + seq![digit_char((n % 10) as int)] =~= old(
                out,
            )@ + decimal(n as nat));
        }
    }
}

/// Writes `n` in decimal behind `out`, with a `-` where it is negative.
pub fn push_signed(out: &mut String, n: i64)
    ensures
        final(out)@ == old(out)@ + signed_decimal(n as int),
{
    if n < 0 {
        proof {
            reveal_strlit("-");
        }
        out.append("-");
        let magnitude: u64 = if n == i64::MIN {
            0x8000_0000_0000_0000
        } else {
            (-n) as u64
        };
        push_decimal(out, magnitude);
        proof {
            assert("-"@ =~= seq!['-']);
            assert(old(out)@ + "-"@ + decimal(magnitude as nat) =~= old(out)@ + signed_decimal(
                n as int,
            ));
        }
    } else {
        push_decimal(out, n as u64);
    }
}

/// Writes `n` in hexadecimal behind `out`.
pub fn push_hexadecimal(out: &mut String, n: u64)
    ensures
        final(out)@ == old(out)@ + hexadecimal(n as nat),
    decreases n,
{
    if n >= 16 {
        push_hexadecimal(out, n / 16);
    }
    out.append(digit_text(n % 16));
    proof {
        if n >= 16 {
            assert(old(out)@ + hexadecimal(n as nat / 16) + seq![digit_char((n % 16) as int)]
                =~= old(out)@ + hexadecimal(n as nat));
        }
    }
}

pub proof fn lemma_decimal(n: nat)
    ensures
        is_digits(decimal(n)),
        digits_value(decimal(n)) == n,
    decreases n,
{
    let s = decimal(n);
    if n < 10 {
        assert(s.drop_last() =~= Seq::<char>::empty());
        assert(digits_value(s.drop_last()) == 0);
    } else {
        lemma_decimal(n / 10);
        assert(s.drop_last() =~= decimal(n / 10));
        assert forall|i: int| 0 <= i < s.len() implies is_digit(#[trigger] s[i]) by {
            if i < s.len() - 1 {
                assert(s[i] == decimal(n / 10)[i]);
            }
        }
    }
}

/// A `u32` written in decimal reads back as itself.
pub proof fn law_u32_reads_back(n: u32)
    ensures
        u32_of(decimal(n as nat)) == Some(n),
{
    lemma_decimal(n as nat);
    assert(is_digit(decimal(n as nat)[0]));
}

/// An `i32` written in decimal reads back as itself.
pub proof fn law_i32_reads_back(n: i32)
    ensures
        i32_of(signed_decimal(n as int)) == Some(n),
{
    let s = signed_decimal(n as int);
    if n < 0 {
        lemma_decimal((-n) as nat);
        assert(s.skip(1) =~= decimal((-n) as nat));
    } else {
        lemma_decimal(n as nat);
        assert(is_digit(s[0]));
    }
}

/// Digits count by their places: those before others count ten times as much for each digit
/// behind them, and a single one counts from 0 to 9.
pub proof fn law_digits_count_by_place(a: Seq<char>, b: Seq<char>, c: char)
    ensures
        digits_value(a + b) == digits_value(a) * pow(10, b.len()) + digits_value(b),
        digits_value(seq![c]) == c as int - 0x30,
    decreases b.len(),
{
    reveal(pow);
    assert(seq![c].drop_last() =~= Seq::<char>::empty());
    assert(digits_value(Seq::<char>::empty()) == 0);
    if b.len() == 0 {
        assert(a + b =~= a);
    } else {
        let d = b.last();
        law_digits_count_by_place(a, b.drop_last(), c);
        assert((a + b).drop_last() =~= a + b.drop_last());
        let m = digits_value(a);
        let p = pow(10, b.drop_last().len());
        assert(pow(10, b.len()) == 10 * p);
        assert(m * (10 * p) == (m * p) * 10) by (nonlinear_arith);
    }
}

/// What stands behind the sign of `s`: a `+`, or a `-` where `signed` holds; all of `s`, where it
/// begins with none.
pub open spec fn behind_sign(s: Seq<char>, signed: bool) -> Seq<char> {
    if s.len() > 0 && (s[0] == '+' || signed && s[0] == '-') {
        s.skip(1)
    } else {
        s
    }
}

/// Whether `s` holds the characters from `0` to `9` only, and at least one.
pub open spec fn in_digits(s: Seq<char>) -> bool {
    &&& s.len() > 0
    &&& forall|i: int| 0 <= i < s.len() ==> 0x30 <= (#[trigger] s[i]) as int <= 0x39
}

proof fn lemma_in_digits(s: Seq<char>)
    ensures
        in_digits(s) == is_digits(s),
        in_digits(s) ==> digits_value(s) >= 0,
{
    if in_digits(s) {
        assert forall|i: int| 0 <= i < s.len() implies is_digit(#[trigger] s[i]) by {}
    }
    if is_digits(s) {
        assert forall|i: int| 0 <= i < s.len() implies 0x30 <= (#[trigger] s[i]) as int
            <= 0x39 by {
            assert(is_digit(s[i]));
        }
        lemma_digits_value_nonnegative(s);
    }
}

/// A `u32` is read exactly from digits, at least one, with a `+` before them or not, that write a
/// number which it can hold; and it is that number.
pub proof fn law_u32_is_read_as_written(s: Seq<char>)
    ensures
        match u32_of(s) {
            Some(n) => in_digits(behind_sign(s, false)) && digits_value(behind_sign(s, false)) == n,
            None => !in_digits(behind_sign(s, false)) || digits_value(behind_sign(s, false))
                > 0xffff_ffff,
        },
{
    lemma_in_digits(behind_sign(s, false));
    if s.len() > 0 && s[0] == '+' {
        assert(!is_digit(s[0]));
    }
}

/// An `i32` is read exactly from digits, at least one, with a sign before them or not, that write
/// a number which it can hold; and it is that number, negative behind a `-`.
pub proof fn law_i32_is_read_as_written(s: Seq<char>)
    ensures
        ({
            let digits = behind_sign(s, true);
            let negative = s.len() > 0 && s[0] == '-';
            let value = digits_value(digits);
            match i32_of(s) {
                Some(n) => in_digits(digits) && (negative ==> n == -value) && (!negative ==> n
                    == value),
                None => !in_digits(digits) || (negative && value > 0x8000_0000) || (!negative
                    && value > 0x7fff_ffff),
            }
        }),
{
    lemma_in_digits(behind_sign(s, true));
    if s.len() > 0 && (s[0] == '+' || s[0] == '-') {
        assert(!is_digit(s[0]));
    }
}

/// A number in decimal is written in digits that count up to it, and begins with a 0 only where
/// it is 0, which is a single digit.
pub proof fn law_decimal_writes_the_number(n: nat)
    ensures
        decimal(n).len() > 0,
        forall|i: int|
            0 <= i < decimal(n).len() ==> 0x30 <= (#[trigger] decimal(n)[i]) as int <= 0x39,
        digits_value(decimal(n)) == n,
        n > 0 ==> decimal(n)[0] != '0',
        n == 0 ==> decimal(n).len() == 1,
    decreases n,
{
    lemma_decimal(n);
    assert forall|i: int| 0 <= i < decimal(n).len() implies 0x30 <= (#[trigger] decimal(
        n,
    )[i]) as int <= 0x39 by {
        assert(is_digit(decimal(n)[i]));
    }
    if n >= 10 {
        law_decimal_writes_the_number(n / 10);
        assert(decimal(n)[0] == decimal(n / 10)[0]);
    }
}

/// A negative number is a `-` and the number without its sign; another one has no sign.
pub proof fn law_sign_comes_first(n: nat)
    ensures
        signed_decimal(n as int) == decimal(n),
        n > 0 ==> signed_decimal(-(n as int)) == seq!['-'] + decimal(n),
{
}

/// What a digit counts in hexadecimal, in lower case; -1 for another character.
pub open spec fn nibble(c: char) -> int {
    if 0x30 <= c as int <= 0x39 {
        c as int - 0x30
    } else if 0x61 <= c as int <= 0x66 {
        c as int - 0x61 + 10
    } else {
        -1
    }
}

/// The number that hexadecimal digits stand for, the most significant one first.
pub open spec fn nibbles_value(s: Seq<char>) -> int
    decreases s.len(),
{
    if s.len() == 0 {
        0
    } else {
        nibbles_value(s.drop_last()) * 16 + nibble(s.last())
    }
}

/// A number in hexadecimal is written in digits in lower case that count up to it, and begins
/// with a 0 only where it is 0, which is a single digit.
pub proof fn law_hexadecimal_writes_the_number(n: nat)
    ensures
        hexadecimal(n).len() > 0,
        forall|i: int| 0 <= i < hexadecimal(n).len() ==> nibble(#[trigger] hexadecimal(n)[i]) >= 0,
        nibbles_value(hexadecimal(n)) == n,
        n > 0 ==> hexadecimal(n)[0] != '0',
        n == 0 ==> hexadecimal(n).len() == 1,
    decreases n,
{
    let s = hexadecimal(n);
    if n < 16 {
        assert(s.drop_last() =~= Seq::<char>::empty());
        assert(nibbles_value(s.drop_last()) == 0);
    } else {
        law_hexadecimal_writes_the_number(n / 16);
        assert(s.drop_last() =~= hexadecimal(n / 16));
        assert(s[0] == hexadecimal(n / 16)[0]);
        assert forall|i: int| 0 <= i < s.len() implies nibble(#[trigger] s[i]) >= 0 by {
            if i < s.len() - 1 {
                assert(s[i] == hexadecimal(n / 16)[i]);
            }
        }
    }
}

} // verus!
