//! Numbers and vectors written out in decimal.
use vstd::prelude::*;
use vstd::string::StringExecFns;
use crate::math::fixed::{magnitude, magnitude_of, Fixed, ONE_RAW};
use crate::math::math3::Vec3;

verus! {

/// The character of a decimal digit.
pub open spec fn digit_char(d: int) -> char {
    if d == 0 {
        '0'
    } else if d == 1 {
        '1'
    } else if d == 2 {
        '2'
    } else if d == 3 {
        '3'
    } else if d == 4 {
        '4'
    } else if d == 5 {
        '5'
    } else if d == 6 {
        '6'
    } else if d == 7 {
        '7'
    } else if d == 8 {
        '8'
    } else {
        '9'
    }
}

/// The decimal digits of `n`, without leading zeros.
pub open spec fn decimal_digits(n: nat) -> Seq<char>
    decreases n,
{
    if n < 10 {
        seq![digit_char(n as int)]
    } else {
        decimal_digits(n / 10).push(digit_char((n % 10) as int))
    }
}

/// The last `width` decimal digits of `n`, with leading zeros.
pub open spec fn padded_digits(n: nat, width: nat) -> Seq<char>
    decreases width,
{
    if width == 0 {
        Seq::empty()
    } else {
        padded_digits(n / 10, (width - 1) as nat).push(digit_char((n % 10) as int))
    }
}

/// The whole part of the number's magnitude.
pub open spec fn whole_part(x: Fixed) -> nat {
    (magnitude(x.raw as int) / ONE_RAW as int) as nat
}

/// The fraction of the number's magnitude in billionths, rounded down.
pub open spec fn billionths(x: Fixed) -> nat {
    (((magnitude(x.raw as int) % ONE_RAW as int) * 1000000000) / ONE_RAW as int) as nat
}

/// The number in decimal: a minus sign if it is negative, the whole
/// part, a point, and nine decimals, rounded toward zero.
pub open spec fn fixed_text(x: Fixed) -> Seq<char> {
    (if x.raw < 0 {
        seq!['-']
    } else {
        Seq::empty()
    }) + decimal_digits(whole_part(x)) + seq!['.'] + padded_digits(billionths(x), 9)
}

/// The three components in decimal with a blank between them.
pub open spec fn vec3_text(v: Vec3) -> Seq<char> {
    fixed_text(v.x) + seq![' '] + fixed_text(v.y) + seq![' '] + fixed_text(v.z)
}

fn digit_text(d: u8) -> (text: &'static str)
    requires
        d < 10,
    ensures
        text@ == seq![digit_char(d as int)],
{
    proof {
        reveal_strlit("0");
        reveal_strlit("1");
        reveal_strlit("2");
        reveal_strlit("3");
        reveal_strlit("4");
        reveal_strlit("5");
        reveal_strlit("6");
        reveal_strlit("7");
        reveal_strlit("8");
        reveal_strlit("9");
    }
    let text = if d == 0 {
        "0"
    } else if d == 1 {
        "1"
    } else if d == 2 {
        "2"
    } else if d == 3 {
        "3"
    } else if d == 4 {
        "4"
    } else if d == 5 {
        "5"
    } else if d == 6 {
        "6"
    } else if d == 7 {
        "7"
    } else if d == 8 {
        "8"
    } else {
        "9"
    };
    assert(text@ =~= seq![digit_char(d as int)]);
    text
}

fn append_decimal(text: &mut String, n: u64)
    ensures
        final(text)@ == old(text)@ + decimal_digits(n as nat),
    decreases n,
{
    if n >= 10 {
        append_decimal(text, n / 10);
    }
    text.append(digit_text((n % 10) as u8));
    assert(final(text)@ =~= old(text)@ + decimal_digits(n as nat));
}

fn append_padded(text: &mut String, n: u64, width: u8)
    ensures
        final(text)@ == old(text)@ + padded_digits(n as nat, width as nat),
    decreases width,
{
    if width > 0 {
        append_padded(text, n / 10, width - 1);
        text.append(digit_text((n % 10) as u8));
    }
    assert(final(text)@ =~= old(text)@ + padded_digits(n as nat, width as nat));
}

fn append_fixed(text: &mut String, x: Fixed)
    ensures
        final(text)@ == old(text)@ + fixed_text(x),
{
    let m: u128 = magnitude_of(x.raw);
    let whole: u64 = (m / 4294967296) as u64;
    let fraction: u64 = (((m % 4294967296) * 1000000000) / 4294967296) as u64;
    proof {
        reveal_strlit("-");
        reveal_strlit(".");
    }
    if x.raw < 0 {
        text.append("-");
    }
    append_decimal(text, whole);
    text.append(".");
    append_padded(text, fraction, 9);
    assert(final(text)@ =~= old(text)@ + fixed_text(x));
}

impl Fixed {
    /// The number in decimal, with nine decimals.
    pub fn to_string(&self) -> (text: String)
        ensures
            text@ == fixed_text(*self),
    {
        let mut text = String::new();
        append_fixed(&mut text, *self);
        assert(text@ =~= fixed_text(*self));
        text
    }
}

impl Vec3 {
    /// The three components in decimal with a blank between them.
    pub fn to_string(&self) -> (text: String)
        ensures
            text@ == vec3_text(*self),
    {
        proof {
            reveal_strlit(" ");
        }
        let mut text = String::new();
        append_fixed(&mut text, self.x);
        text.append(" ");
        append_fixed(&mut text, self.y);
        text.append(" ");
        append_fixed(&mut text, self.z);
        assert(text@ =~= vec3_text(*self));
        text
    }
}

} // verus!
