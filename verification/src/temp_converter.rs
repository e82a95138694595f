use vstd::prelude::*;
use crate::text::{chars_of, decimal, digit_char, trim, trimmed};

verus! {

pub open spec fn is_ascii_digit(c: char) -> bool {
    '0' <= c <= '9'
}

/// The value of a string of decimal digits.
pub open spec fn digits_value(s: Seq<char>) -> nat
    decreases s.len(),
{
    if s.len() == 0 {
        0
    } else {
        digits_value(s.drop_last()) * 10 + ((s.last() as nat) - ('0' as nat)) as nat
    }
}

/// `s` without one leading `+`.
pub open spec fn without_plus(s: Seq<char>) -> Seq<char> {
    if s.len() > 0 && s[0] == '+' {
        s.drop_first()
    } else {
        s
    }
}

pub open spec fn all_digits(d: Seq<char>) -> bool {
    forall|k: int| 0 <= k < d.len() ==> is_ascii_digit(#[trigger] d[k])
}

/// What std's `u8::from_str` makes of `s`: an optional `+`, then one or
/// more ASCII digits whose value is at most 255.
pub open spec fn u8_parse(s: Seq<char>) -> Option<u8> {
    let d = without_plus(s);
    if d.len() > 0 && all_digits(d) && digits_value(d) <= 255 {
        Some(digits_value(d) as u8)
    } else {
        None
    }
}

proof fn lemma_digits_value_monotone(d: Seq<char>, k: int)
    requires
        0 <= k <= d.len(),
        forall|j: int| 0 <= j < d.len() ==> is_ascii_digit(#[trigger] d[j]),
    ensures
        digits_value(d.take(k)) <= digits_value(d),
    decreases d.len() - k,
{
    if k < d.len() {
        assert(d.drop_last().take(k) =~= d.take(k));
        lemma_digits_value_monotone(d.drop_last(), k);
    } else {
        assert(d.take(k) =~= d);
    }
}

/// Reads a `u8` as std's `u8::from_str` does.
pub fn parse_u8(s: &str) -> (r: Option<u8>)
    ensures
        r == u8_parse(s@),
{
    let c = chars_of(s);
    let n = c.len();
    let mut start: usize = 0;
    if n > 0 && c[0] == '+' {
        start = 1;
    }
    let ghost d = without_plus(s@);
    assert(d =~= c@.skip(start as int));
    if start >= n {
        return None;
    }
    let mut value: u32 = 0;
    let mut i: usize = start;
    while i < n
        invariant
            c@ == s@,
            n == c@.len(),
            start <= i <= n,
            d == c@.skip(start as int),
            d == without_plus(s@),
            forall|k: int| start <= k < i ==> is_ascii_digit(#[trigger] c@[k]),
            value == digits_value(d.take(i - start)),
            value <= 255,
        decreases n - i,
    {
        let x = c[i];
        if !('0' <= x && x <= '9') {
            proof {
                assert(d[i - start] == x);
                assert(!is_ascii_digit(d[i - start]));
                assert(!all_digits(d));
            }
            return None;
        }
        let dv = (x as u32) - ('0' as u32);
        proof {
            assert(d.take(i - start + 1).drop_last() =~= d.take(i - start));
            assert(d.take(i - start + 1).last() == x);
        }
        value = value * 10 + dv;
        i += 1;
        if value > 255 {
            proof {
                if all_digits(d) {
                    lemma_digits_value_monotone(d, i - start);
                }
            }
            return None;
        }
    }
    proof {
        assert(d.take(n - start) =~= d);
    }
    Some(value as u8)
}

proof fn lemma_digit_char(d: nat)
    requires
        d < 10,
    ensures
        is_ascii_digit(digit_char(d)),
        (digit_char(d) as nat) - ('0' as nat) == d,
{
}

/// The decimal notation of `n` is a string of digits whose value is `n`.
pub proof fn lemma_decimal_value(n: nat)
    ensures
        decimal(n).len() > 0,
        all_digits(decimal(n)),
        digits_value(decimal(n)) == n,
    decreases n,
{
    if n < 10 {
        lemma_digit_char(n);
        let s = decimal(n);
        assert(s.drop_last() =~= Seq::<char>::empty());
        assert(digits_value(s.drop_last()) == 0);
        assert(s.last() == digit_char(n));
    } else {
        lemma_decimal_value(n / 10);
        lemma_digit_char(n % 10);
        let s = decimal(n);
        assert(s.drop_last() =~= decimal(n / 10));
        vstd::arithmetic::div_mod::lemma_fundamental_div_mod(n as int, 10);
        assert(s.last() == digit_char(n % 10));
        assert(digits_value(s) == digits_value(decimal(n / 10)) * 10 + ((s.last() as nat) - (
        '0' as nat)) as nat);
        assert forall|k: int| 0 <= k < s.len() implies is_ascii_digit(#[trigger] s[k]) by {
            if k < s.len() - 1 {
                assert(s[k] == decimal(n / 10)[k]);
            }
        }
    }
}

/// Reading back what `u64_to_decimal` writes gives the number again, for
/// every number that fits a `u8`.
pub proof fn law_parse_u8_reads_decimal(n: u8)
    ensures
        u8_parse(decimal(n as nat)) == Some(n),
{
    lemma_decimal_value(n as nat);
    let d = decimal(n as nat);
    assert(is_ascii_digit(d[0]));
    assert(without_plus(d) == d);
}

/// The two conversions of the temperature converter.
#[derive(PartialEq, Eq, Structural, Clone, Copy, Debug)]
pub enum Conversion {
    /// Choice 1: Celsius to Fahrenheit.
    CelsiusToFahrenheit,
    /// Choice 2: Fahrenheit to Celsius.
    FahrenheitToCelsius,
}

/// The conversion for a menu number: 1 or 2.
pub open spec fn conversion_of(choice: Option<u8>) -> Option<Conversion> {
    match choice {
        Some(1) => Some(Conversion::CelsiusToFahrenheit),
        Some(2) => Some(Conversion::FahrenheitToCelsius),
        _ => None,
    }
}

impl Conversion {
    pub fn from_choice(choice: u8) -> (r: Option<Conversion>)
        ensures
            r == conversion_of(Some(choice)),
    {
        match choice {
            1 => Some(Conversion::CelsiusToFahrenheit),
            2 => Some(Conversion::FahrenheitToCelsius),
            _ => None,
        }
    }

    /// The unit of the converted temperature.
    pub fn unit(&self) -> (u: &'static str)
        ensures
            u@ == (if *self == Conversion::CelsiusToFahrenheit {
                "°F"@
            } else {
                "°C"@
            }),
    {
        match self {
            Conversion::CelsiusToFahrenheit => "°F",
            Conversion::FahrenheitToCelsius => "°C",
        }
    }
}

/// Reads the menu line: the conversion chosen, or `None` for anything but
/// 1 or 2.
pub fn parse_conversion(input: &str) -> (r: Option<Conversion>)
    ensures
        r == conversion_of(u8_parse(trimmed(input@))),
{
    let t = trim(input);
    match parse_u8(t.as_str()) {
        Some(choice) => Conversion::from_choice(choice),
        None => None,
    }
}

} // verus!
