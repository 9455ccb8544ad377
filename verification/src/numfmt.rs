//! Decimal rendering of the integer-scaled quantities.
//!
//! Refresh rates are held in millihertz and scale factors in hundredths, so
//! that every value the catalog works with is an integer. Generated commands
//! and configuration lines render both with exactly two decimal digits; a
//! millihertz value is first rounded to hundredths (halves rounding up).

use vstd::prelude::*;

verus! {

/// The decimal digit character for `d` (`0 <= d <= 9`).
pub open spec fn digit_char(d: int) -> char {
    if d == 0 {
        '0'
    } else if d == 1 {
        '1'
    } else if d == 2 {
        '2'
    } else if d == 3 {
        '3'
    } else if d == 4 {
        '4'
    } else if d == 5 {
        '5'
    } else if d == 6 {
        '6'
    } else if d == 7 {
        '7'
    } else if d == 8 {
        '8'
    } else {
        '9'
    }
}

/// The decimal numeral for `n`, most significant digit first, with no
/// leading zeros (a single `'0'` for zero).
pub open spec fn dec_digits(n: nat) -> Seq<char>
    decreases n,
{
    if n < 10 {
        seq![digit_char(n as int)]
    } else {
        dec_digits(n / 10).push(digit_char((n % 10) as int))
    }
}

/// `centi` rendered as a decimal number with exactly two digits after the
/// point: the numeral for `centi / 100`, a `'.'`, then the two digits of
/// `centi % 100`.
pub open spec fn two_dec_chars(centi: nat) -> Seq<char> {
    dec_digits(centi / 100) + seq![
        '.',
        digit_char(((centi / 10) % 10) as int),
        digit_char((centi % 10) as int),
    ]
}

/// `milli` rounded to the nearest hundredth, halves rounding up.
pub open spec fn centi_of_milli(milli: nat) -> nat {
    milli / 10 + if milli % 10 >= 5 {
        1nat
    } else {
        0nat
    }
}

/// The single-character string for the digit `d`.
pub fn digit_str(d: u64) -> (r: &'static str)
    requires
        d < 10,
    ensures
        r@ =~= seq![digit_char(d as int)],
{
    proof {
        reveal_strlit("0");
        reveal_strlit("1");
        reveal_strlit("2");
        reveal_strlit("3");
        reveal_strlit("4");
        reveal_strlit("5");
        reveal_strlit("6");
        reveal_strlit("7");
        reveal_strlit("8");
        reveal_strlit("9");
    }
    if d == 0 {
        "0"
    } else if d == 1 {
        "1"
    } else if d == 2 {
        "2"
    } else if d == 3 {
        "3"
    } else if d == 4 {
        "4"
    } else if d == 5 {
        "5"
    } else if d == 6 {
        "6"
    } else if d == 7 {
        "7"
    } else if d == 8 {
        "8"
    } else {
        "9"
    }
}

/// Renders `n` as a decimal numeral.
pub fn dec_string(n: u64) -> (r: String)
    ensures
        r@ == dec_digits(n as nat),
    decreases n,
{
    if n < 10 {
        let s = digit_str(n).to_owned();
        proof {
            assert(s@ =~= dec_digits(n as nat));
        }
        s
    } else {
        let mut s = dec_string(n / 10);
        s.append(digit_str(n % 10));
        proof {
            assert(s@ =~= dec_digits(n as nat));
        }
        s
    }
}

/// Renders a value held in hundredths with exactly two decimal digits,
/// e.g. `5994` becomes `59.94` and `150` becomes `1.50`.
pub fn format_centi(centi: u64) -> (r: String)
    ensures
        r@ == two_dec_chars(centi as nat),
{
    proof {
        reveal_strlit(".");
    }
    let mut s = dec_string(centi / 100);
    s.append(".");
    s.append(digit_str((centi / 10) % 10));
    s.append(digit_str(centi % 10));
    proof {
        assert(s@ =~= two_dec_chars(centi as nat));
    }
    s
}

/// Rounds a millihertz value to hundredths, halves rounding up.
pub fn milli_to_centi(milli: u64) -> (r: u64)
    ensures
        r == centi_of_milli(milli as nat),
{
    if milli % 10 >= 5 {
        milli / 10 + 1
    } else {
        milli / 10
    }
}

/// Renders a millihertz value with exactly two decimal digits,
/// e.g. `59940` becomes `59.94`.
pub fn format_milli(milli: u64) -> (r: String)
    ensures
        r@ == two_dec_chars(centi_of_milli(milli as nat)),
{
    format_centi(milli_to_centi(milli))
}

} // verus!
