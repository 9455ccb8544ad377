//! Parsing of decimal numerals out of mode strings.
//!
//! A refresh rate such as `59.94` is read as an integer count of
//! millihertz (`59940`); fractional digits beyond the third are folded into
//! the third by rounding on the fourth digit, halves rounding up. Width and
//! height are read as plain (optionally signed) decimal integers. Numbers
//! whose value does not fit the target integer type are rejected.

use vstd::prelude::*;

verus! {

broadcast use vstd::utf8::char_is_scalar, vstd::utf8::char_u32_cast;

/// `c` is a decimal digit.
pub open spec fn is_digit(c: char) -> bool {
    48 <= c as u32 && c as u32 <= 57
}

/// The value of the digit `c`.
pub open spec fn digit_val(c: char) -> nat {
    ((c as u32) - 48) as nat
}

/// Every character of `s` is a decimal digit.
pub open spec fn all_digits(s: Seq<char>) -> bool {
    forall|i: int| 0 <= i < s.len() ==> is_digit(#[trigger] s[i])
}

/// The value of the digit string `s`, most significant digit first.
pub open spec fn digits_val(s: Seq<char>) -> nat
    decreases s.len(),
{
    if s.len() == 0 {
        0
    } else {
        digits_val(s.drop_last()) * 10 + digit_val(s.last())
    }
}

proof fn lemma_digits_val_take_step(s: Seq<char>, i: int)
    requires
        0 <= i < s.len(),
    ensures
        digits_val(s.take(i + 1)) == digits_val(s.take(i)) * 10 + digit_val(s[i]),
{
    assert(s.take(i + 1).drop_last() =~= s.take(i));
    assert(s.take(i + 1).last() == s[i]);
}

proof fn lemma_digits_val_take_monotone(s: Seq<char>, k: int)
    requires
        0 <= k <= s.len(),
    ensures
        digits_val(s) >= digits_val(s.take(k)),
    decreases s.len(),
{
    if k == s.len() {
        assert(s.take(k) =~= s);
    } else {
        lemma_digits_val_take_monotone(s.drop_last(), k);
        assert(s.drop_last().take(k) =~= s.take(k));
    }
}

/// Reads an unsigned digit string; `None` when `s` is empty, has a
/// non-digit character, or its value exceeds `u64::MAX`.
pub fn parse_digits_u64(s: &str) -> (r: Option<u64>)
    ensures
        match r {
            Some(v) => all_digits(s@) && s@.len() > 0 && digits_val(s@) <= u64::MAX && v
                == digits_val(s@),
            None => !(all_digits(s@) && s@.len() > 0 && digits_val(s@) <= u64::MAX),
        },
{
    let len = s.unicode_len();
    if len == 0 {
        return None;
    }
    let mut v: u64 = 0;
    let mut i: usize = 0;
    proof {
        assert(s@.take(0).len() == 0);
    }
    while i < len
        invariant
            i <= len,
            len == s@.len(),
            all_digits(s@.take(i as int)),
            v == digits_val(s@.take(i as int)),
        decreases len - i,
    {
        let c = s.get_char(i);
        let u = c as u32;
        if u < 48 || u > 57 {
            proof {
                assert(!is_digit(s@[i as int]));
            }
            return None;
        }
        let d = (u - 48) as u64;
        proof {
            lemma_digits_val_take_step(s@, i as int);
        }
        if v > (u64::MAX - d) / 10 {
            proof {
                assert(digits_val(s@.take(i as int + 1)) > u64::MAX);
                lemma_digits_val_take_monotone(s@, i as int + 1);
            }
            return None;
        }
        v = v * 10 + d;
        proof {
            assert(all_digits(s@.take(i as int + 1))) by {
                assert(forall|j: int|
                    0 <= j < i + 1 ==> s@.take(i as int + 1)[j] == #[trigger] s@.take(i as int)[j]
                        || j == i);
            }
        }
        i = i + 1;
    }
    proof {
        assert(s@.take(len as int) =~= s@);
    }
    Some(v)
}

/// An optionally signed decimal integer whose magnitude fits in `i64`.
pub open spec fn int_text_valid(s: Seq<char>) -> bool {
    if s.len() == 0 {
        false
    } else if s[0] == '-' || s[0] == '+' {
        s.len() > 1 && all_digits(s.drop_first()) && digits_val(s.drop_first()) <= i64::MAX
    } else {
        all_digits(s) && digits_val(s) <= i64::MAX
    }
}

/// The value of a valid integer numeral.
pub open spec fn int_text_val(s: Seq<char>) -> int {
    if s.len() == 0 {
        0
    } else if s[0] == '-' {
        -(digits_val(s.drop_first()) as int)
    } else if s[0] == '+' {
        digits_val(s.drop_first()) as int
    } else {
        digits_val(s) as int
    }
}

/// What `parse_int_i64` returns for the character sequence `s`.
pub open spec fn parse_int_spec(s: Seq<char>) -> Option<i64> {
    if int_text_valid(s) {
        Some(int_text_val(s) as i64)
    } else {
        None
    }
}

/// Reads an optionally signed decimal integer.
pub fn parse_int_i64(s: &str) -> (r: Option<i64>)
    ensures
        r == parse_int_spec(s@),
{
    let len = s.unicode_len();
    if len == 0 {
        return None;
    }
    let c0 = s.get_char(0);
    if c0 == '-' || c0 == '+' {
        if len == 1 {
            return None;
        }
        let rest = s.substring_char(1, len);
        proof {
            assert(rest@ =~= s@.drop_first());
        }
        match parse_digits_u64(rest) {
            Some(m) => {
                if m <= i64::MAX as u64 {
                    if c0 == '-' {
                        Some(-(m as i64))
                    } else {
                        Some(m as i64)
                    }
                } else {
                    None
                }
            },
            None => None,
        }
    } else {
        match parse_digits_u64(s) {
            Some(m) => {
                if m <= i64::MAX as u64 {
                    Some(m as i64)
                } else {
                    None
                }
            },
            None => None,
        }
    }
}

/// Index of the first occurrence of `c` in `s`, or `s.len()` when absent.
pub open spec fn first_index_of(s: Seq<char>, c: char) -> int
    decreases s.len(),
{
    if s.len() == 0 {
        0
    } else if s[0] == c {
        0
    } else {
        1 + first_index_of(s.drop_first(), c)
    }
}

/// The defining characterization of `first_index_of`.
pub proof fn lemma_first_index_is(s: Seq<char>, c: char, i: int)
    requires
        0 <= i <= s.len(),
        forall|j: int| 0 <= j < i ==> s[j] != c,
        i < s.len() ==> s[i] == c,
    ensures
        first_index_of(s, c) == i,
    decreases s.len(),
{
    if s.len() == 0 {
    } else if s[0] == c {
        assert(i == 0);
    } else {
        assert(i >= 1);
        assert(forall|j: int| 0 <= j < i - 1 ==> s.drop_first()[j] == s[j + 1]);
        lemma_first_index_is(s.drop_first(), c, i - 1);
    }
}

/// Everything `first_index_of` guarantees about its result.
pub proof fn lemma_first_index_bounds(s: Seq<char>, c: char)
    ensures
        0 <= first_index_of(s, c) <= s.len(),
        first_index_of(s, c) < s.len() ==> s[first_index_of(s, c)] == c,
        forall|j: int| 0 <= j < first_index_of(s, c) ==> s[j] != c,
    decreases s.len(),
{
    if s.len() == 0 {
    } else if s[0] == c {
    } else {
        lemma_first_index_bounds(s.drop_first(), c);
        assert(forall|j: int| 1 <= j < s.len() ==> s[j] == s.drop_first()[j - 1]);
    }
}

/// Finds the first occurrence of `c` in `s`.
pub fn find_char(s: &str, c: char) -> (i: usize)
    ensures
        i as int == first_index_of(s@, c),
        i <= s@.len(),
{
    let len = s.unicode_len();
    let mut i: usize = 0;
    while i < len
        invariant
            i <= len,
            len == s@.len(),
            forall|j: int| 0 <= j < i ==> s@[j] != c,
        decreases len - i,
    {
        if s.get_char(i) == c {
            proof {
                lemma_first_index_is(s@, c, i as int);
            }
            return i;
        }
        i = i + 1;
    }
    proof {
        lemma_first_index_is(s@, c, len as int);
    }
    len
}

/// The digits of a rate numeral before the decimal point.
pub open spec fn rate_int_part(s: Seq<char>) -> Seq<char> {
    s.take(first_index_of(s, '.'))
}

/// The digits of a rate numeral after the decimal point (empty when there
/// is no point).
pub open spec fn rate_frac_part(s: Seq<char>) -> Seq<char> {
    let k = first_index_of(s, '.');
    if k == s.len() {
        Seq::empty()
    } else {
        s.skip(k + 1)
    }
}

/// The `i`-th fractional digit, or zero past the end.
pub open spec fn frac_digit(f: Seq<char>, i: int) -> nat {
    if i < f.len() {
        digit_val(f[i])
    } else {
        0
    }
}

/// The fractional digits as a count of thousandths, rounded on the fourth
/// digit, halves up.
pub open spec fn frac_milli(f: Seq<char>) -> nat {
    frac_digit(f, 0) * 100 + frac_digit(f, 1) * 10 + frac_digit(f, 2) + if frac_digit(f, 3) >= 5 {
        1nat
    } else {
        0nat
    }
}

/// A rate numeral: digits, at most one point, at least one digit in all,
/// value within `u64::MAX` millihertz.
pub open spec fn rate_text_valid(s: Seq<char>) -> bool {
    let ip = rate_int_part(s);
    let fp = rate_frac_part(s);
    all_digits(ip) && all_digits(fp) && ip.len() + fp.len() > 0 && digits_val(ip) * 1000
        + frac_milli(fp) <= u64::MAX
}

/// The millihertz value of a valid rate numeral.
pub open spec fn rate_milli_val(s: Seq<char>) -> nat {
    digits_val(rate_int_part(s)) * 1000 + frac_milli(rate_frac_part(s))
}

/// What `parse_rate_milli` returns for the character sequence `s`.
pub open spec fn parse_rate_spec(s: Seq<char>) -> Option<u64> {
    if rate_text_valid(s) {
        Some(rate_milli_val(s) as u64)
    } else {
        None
    }
}

/// Reads a decimal rate numeral as millihertz, e.g. `59.94` as `59940`.
pub fn parse_rate_milli(s: &str) -> (r: Option<u64>)
    ensures
        r == parse_rate_spec(s@),
{
    let len = s.unicode_len();
    let k = find_char(s, '.');
    let ghost ip = rate_int_part(s@);
    let ghost fp = rate_frac_part(s@);
    let frac_start = if k == len {
        len
    } else {
        k + 1
    };
    proof {
        assert(ip =~= s@.take(k as int));
        if k != len {
            assert(fp =~= s@.skip(k as int + 1));
        }
        assert(ip.len() == k);
        assert(fp.len() == len - frac_start);
    }
    if k == 0 && frac_start == len {
        return None;
    }
    // Integer part.
    let iv: u64 = if k == 0 {
        0
    } else {
        let int_str = s.substring_char(0, k);
        proof {
            assert(int_str@ =~= ip);
        }
        match parse_digits_u64(int_str) {
            Some(v) => v,
            None => {
                proof {
                    if all_digits(ip) {
                        assert(digits_val(ip) > u64::MAX);
                        assert(digits_val(ip) * 1000 >= digits_val(ip));
                    }
                }
                return None;
            },
        }
    };
    // Fractional part: all digits.
    let mut j = frac_start;
    while j < len
        invariant
            frac_start <= j <= len,
            len == s@.len(),
            frac_start == if first_index_of(s@, '.') == len as int {
                len as int
            } else {
                first_index_of(s@, '.') + 1
            },
            fp == rate_frac_part(s@),
            fp.len() == len - frac_start,
            forall|t: int| 0 <= t < j - frac_start ==> is_digit(#[trigger] fp[t]),
            forall|t: int| 0 <= t < fp.len() ==> fp[t] == s@[frac_start + t],
        decreases len - j,
    {
        let c = s.get_char(j);
        let u = c as u32;
        if u < 48 || u > 57 {
            proof {
                assert(fp[j - frac_start] == s@[j as int]);
                assert(!is_digit(fp[j - frac_start]));
            }
            return None;
        }
        j = j + 1;
    }
    proof {
        assert(all_digits(fp));
        assert forall|t: int| 0 <= t < len - frac_start implies is_digit(
            #[trigger] s@[frac_start + t],
        ) by {
            assert(is_digit(fp[t]));
        }
    }
    // First four fractional digits.
    let d0 = frac_digit_at(s, frac_start, len, 0);
    let d1 = frac_digit_at(s, frac_start, len, 1);
    let d2 = frac_digit_at(s, frac_start, len, 2);
    let d3 = frac_digit_at(s, frac_start, len, 3);
    let fm: u64 = d0 * 100 + d1 * 10 + d2 + if d3 >= 5 {
        1
    } else {
        0
    };
    proof {
        assert(d0 == frac_digit(fp, 0));
        assert(d1 == frac_digit(fp, 1));
        assert(d2 == frac_digit(fp, 2));
        assert(d3 == frac_digit(fp, 3));
        assert(fm == frac_milli(fp));
    }
    let total: u128 = (iv as u128) * 1000 + (fm as u128);
    if total > u64::MAX as u128 {
        return None;
    }
    Some(total as u64)
}

/// The `off`-th fractional digit of the numeral in `s`, where the
/// fractional digits occupy `[frac_start, len)`; zero past the end.
fn frac_digit_at(s: &str, frac_start: usize, len: usize, off: usize) -> (d: u64)
    requires
        frac_start <= len,
        len == s@.len(),
        off < 4,
        forall|t: int| 0 <= t < len - frac_start ==> is_digit(#[trigger] s@[frac_start + t]),
    ensures
        off < len - frac_start ==> d == digit_val(s@[frac_start + off]),
        off >= len - frac_start ==> d == 0,
        d <= 9,
{
    if off < len - frac_start {
        let c = s.get_char(frac_start + off);
        proof {
            assert(is_digit(s@[frac_start + off as int]));
        }
        ((c as u32) - 48) as u64
    } else {
        0
    }
}

} // verus!
