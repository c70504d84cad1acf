//! Decimal numbers, clock times and fixed-point numbers as text.

use vstd::prelude::*;
use vstd::string::StringExecFns;

verus! {

/// The character of the decimal digit `d`.
pub open spec fn digit_char(d: int) -> char
    recommends
        0 <= d <= 9,
{
    if d == 0 {
        '0'
    } else if d == 1 {
        '1'
    } else if d == 2 {
        '2'
    } else if d == 3 {
        '3'
    } else if d == 4 {
        '4'
    } else if d == 5 {
        '5'
    } else if d == 6 {
        '6'
    } else if d == 7 {
        '7'
    } else if d == 8 {
        '8'
    } else {
        '9'
    }
}

/// `c` is one of the ten decimal digits.
pub open spec fn is_digit(c: char) -> bool {
    exists|d: int| 0 <= d <= 9 && c == #[trigger] digit_char(d)
}

/// `n` in decimal, without leading zeros; zero is "0".
pub open spec fn decimal_text(n: nat) -> Seq<char>
    decreases n,
{
    if n < 10 {
        seq![digit_char(n as int)]
    } else {
        decimal_text(n / 10).push(digit_char((n % 10) as int))
    }
}

/// `count` zeros.
pub open spec fn zeros(count: nat) -> Seq<char> {
    Seq::new(count, |i: int| '0')
}

/// `n` in decimal, with zeros in front where it has fewer than `width` digits.
pub open spec fn padded_text(n: nat, width: nat) -> Seq<char> {
    let digits = decimal_text(n);
    if digits.len() >= width {
        digits
    } else {
        zeros((width - digits.len()) as nat) + digits
    }
}

/// A time as hours, minutes and seconds: the hours as they are, then the
/// minutes and the seconds with two digits at least, colons between them.
pub open spec fn clock_text(hours: nat, minutes: nat, seconds: nat) -> Seq<char> {
    decimal_text(hours) + seq![':'] + padded_text(minutes, 2) + seq![':'] + padded_text(
        seconds,
        2,
    )
}

/// A number of thousandths as a decimal number with three fractional digits.
pub open spec fn fixed3_text(thousandths: nat) -> Seq<char> {
    decimal_text(thousandths / 1000) + seq!['.'] + padded_text(thousandths % 1000, 3)
}

/// `s` is a duration written as `H:MM:SS`: hours without padding, then
/// minutes and seconds below sixty, two digits each.
pub open spec fn is_duration_text(s: Seq<char>) -> bool {
    exists|hours: nat, minutes: nat, seconds: nat|
        minutes < 60 && seconds < 60 && s == #[trigger] clock_text(hours, minutes, seconds)
}

/// Every decimal has a digit, and ten or more has two.
pub proof fn lemma_decimal_text_len(n: nat)
    ensures
        decimal_text(n).len() >= 1,
        n < 10 <==> decimal_text(n).len() == 1,
        10 <= n < 100 <==> decimal_text(n).len() == 2,
    decreases n,
{
    if n >= 10 {
        lemma_decimal_text_len(n / 10);
    }
}

/// A decimal holds digits only.
pub proof fn lemma_decimal_is_digits(n: nat)
    ensures
        forall|i: int| 0 <= i < decimal_text(n).len() ==> is_digit(#[trigger] decimal_text(n)[i]),
    decreases n,
{
    let text = decimal_text(n);
    if n >= 10 {
        lemma_decimal_is_digits(n / 10);
    }
    assert forall|i: int| 0 <= i < text.len() implies is_digit(#[trigger] text[i]) by {
        if i == text.len() - 1 {
            assert(text[i] == digit_char((n % 10) as int));
        } else {
            assert(text[i] == decimal_text(n / 10)[i]);
        }
    }
}

/// With minutes and seconds below sixty a clock text is the hours, a colon and
/// exactly two digits, a colon and exactly two digits.
pub proof fn lemma_clock_text_shape(hours: nat, minutes: nat, seconds: nat)
    requires
        minutes < 60,
        seconds < 60,
    ensures
        is_duration_text(clock_text(hours, minutes, seconds)),
        clock_text(hours, minutes, seconds).len() == decimal_text(hours).len() + 6,
        clock_text(hours, minutes, seconds) == decimal_text(hours) + seq![
            ':',
            digit_char(minutes as int / 10),
            digit_char(minutes as int % 10),
            ':',
            digit_char(seconds as int / 10),
            digit_char(seconds as int % 10),
        ],
{
    lemma_two_digits(minutes);
    lemma_two_digits(seconds);
}

/// A number below a hundred, padded to two digits, is its tens digit and its units digit.
pub proof fn lemma_two_digits(n: nat)
    requires
        n < 100,
    ensures
        padded_text(n, 2) == seq![digit_char(n as int / 10), digit_char(n as int % 10)],
{
    lemma_decimal_text_len(n);
    if n < 10 {
        assert(padded_text(n, 2) =~= seq!['0', digit_char(n as int)]);
    } else {
        lemma_decimal_text_len(n / 10);
        assert(decimal_text(n / 10) == seq![digit_char(n as int / 10)]);
        assert(padded_text(n, 2) =~= seq![digit_char(n as int / 10), digit_char(n as int % 10)]);
    }
}

/// Under a literal hour "0", a clock text is a well-formed duration exactly
/// where its minutes are below sixty.
pub proof fn lemma_zero_hour_clock(minutes: nat, seconds: nat)
    requires
        seconds < 60,
    ensures
        is_duration_text(clock_text(0, minutes, seconds)) <==> minutes < 60,
{
    if minutes < 60 {
        lemma_clock_text_shape(0, minutes, seconds);
    } else if is_duration_text(clock_text(0, minutes, seconds)) {
        let given = clock_text(0, minutes, seconds);
        let (h, m, s) = choose|h: nat, m: nat, s: nat|
            m < 60 && s < 60 && given == #[trigger] clock_text(h, m, s);
        let hours = decimal_text(h);
        lemma_clock_text_shape(h, m, s);
        lemma_decimal_is_digits(h);
        lemma_decimal_text_len(h);
        lemma_decimal_text_len(minutes);
        lemma_two_digits(seconds);
        assert(given[1] == ':');
        if hours.len() >= 2 {
            assert(given[1] == hours[1]);
            assert(is_digit(hours[1]));
            assert(false);
        }
        // One digit of hours: the two texts are as long only if the minutes have two digits.
        assert(given.len() == 7);
        assert(decimal_text(minutes).len() == 2);
        lemma_two_digits(minutes);
        assert(given[2] == digit_char(minutes as int / 10));
        assert(given[3] == digit_char(minutes as int % 10));
        assert(given[2] == digit_char(m as int / 10));
        assert(given[3] == digit_char(m as int % 10));
        assert(false);
    }
}

/// The one-character text of a decimal digit.
fn digit_str(d: u8) -> (s: &'static str)
    requires
        d <= 9,
    ensures
        s@ == seq![digit_char(d as int)],
{
    proof {
        reveal_strlit("0");
        reveal_strlit("1");
        reveal_strlit("2");
        reveal_strlit("3");
        reveal_strlit("4");
        reveal_strlit("5");
        reveal_strlit("6");
        reveal_strlit("7");
        reveal_strlit("8");
        reveal_strlit("9");
    }
    let s = match d {
        0 => "0",
        1 => "1",
        2 => "2",
        3 => "3",
        4 => "4",
        5 => "5",
        6 => "6",
        7 => "7",
        8 => "8",
        _ => "9",
    };
    assert(s@ =~= seq![digit_char(d as int)]);
    s
}

/// The number of digits of `n` in decimal.
pub fn decimal_len(n: u128) -> (len: usize)
    ensures
        len == decimal_text(n as nat).len(),
        1 <= len <= 39,
{
    let mut len: usize = 1;
    let mut rest: u128 = n;
    proof {
        let one = pow10(0);
        assert(rest * one == n) by (nonlinear_arith)
            requires
                one == 1,
                rest == n,
        ;
    }
    while rest >= 10
        invariant
            1 <= len,
            len + decimal_text(rest as nat).len() == decimal_text(n as nat).len() + 1,
            rest * pow10((len - 1) as nat) <= n,
            len <= 39,
        decreases rest,
    {
        proof {
            lemma_pow10_step(rest as nat, (len - 1) as nat, n as nat);
        }
        rest = rest / 10;
        len = len + 1;
    }
    len
}

/// Ten to the power `e`.
pub open spec fn pow10(e: nat) -> nat
    decreases e,
{
    if e == 0 {
        1
    } else {
        10 * pow10((e - 1) as nat)
    }
}

/// A number with a digit more than `e` digits is at least ten to the `e`; no
/// 128-bit number reaches ten to the 39.
proof fn lemma_pow10_step(rest: nat, e: nat, n: nat)
    requires
        rest >= 10,
        rest * pow10(e) <= n,
        n <= u128::MAX,
        e <= 38,
    ensures
        (rest / 10) * pow10(e + 1) <= n,
        e + 1 <= 38,
{
    reveal_with_fuel(pow10, 40);
    let p = pow10(e);
    assert((rest / 10) * (10 * p) <= rest * p) by (nonlinear_arith)
        requires
            rest >= 10,
            p >= 0,
    ;
    if e == 38 {
        assert(pow10(38) == 100000000000000000000000000000000000000nat);
        assert(rest * p >= 10 * p) by (nonlinear_arith)
            requires
                rest >= 10,
                p >= 0,
        ;
        assert(false);
    }
}

/// Appends `n` in decimal.
pub fn push_decimal(out: &mut String, n: u128)
    ensures
        final(out)@ == old(out)@ + decimal_text(n as nat),
    decreases n,
{
    if n >= 10 {
        push_decimal(out, n / 10);
    }
    out.append(digit_str((n % 10) as u8));
}

/// Appends `n` in decimal, with zeros in front up to `width` characters.
pub fn push_padded(out: &mut String, n: u128, width: usize)
    ensures
        final(out)@ == old(out)@ + padded_text(n as nat, width as nat),
{
    let len = decimal_len(n);
    let mut written: usize = len;
    while written < width
        invariant
            len <= written,
            written <= width || written == len,
            out@ == old(out)@ + zeros((written - len) as nat),
        decreases width - written,
    {
        proof {
            reveal_strlit("0");
            assert(zeros((written - len) as nat) + "0"@ =~= zeros((written + 1 - len) as nat));
        }
        out.append("0");
        written = written + 1;
    }
    push_decimal(out, n);
    proof {
        assert(zeros(0) + decimal_text(n as nat) =~= decimal_text(n as nat));
    }
}

/// Writes a time as `H:MM:SS`; minutes or seconds of a hundred or more take
/// the digits they need.
pub fn clock_string(hours: u128, minutes: u128, seconds: u128) -> (s: String)
    ensures
        s@ == clock_text(hours as nat, minutes as nat, seconds as nat),
{
    let mut s = String::new();
    proof {
        reveal_strlit(":");
    }
    push_decimal(&mut s, hours);
    s.append(":");
    push_padded(&mut s, minutes, 2);
    s.append(":");
    push_padded(&mut s, seconds, 2);
    assert(s@ =~= clock_text(hours as nat, minutes as nat, seconds as nat));
    s
}

/// Writes a number of thousandths with three fractional digits.
pub fn fixed3_string(thousandths: u128) -> (s: String)
    ensures
        s@ == fixed3_text(thousandths as nat),
{
    let mut s = String::new();
    proof {
        reveal_strlit(".");
    }
    push_decimal(&mut s, thousandths / 1000);
    s.append(".");
    push_padded(&mut s, thousandths % 1000, 3);
    assert(s@ =~= fixed3_text(thousandths as nat));
    s
}

} // verus!
