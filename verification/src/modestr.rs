//! Mode strings and resolution labels.
//!
//! A video mode is reported as `"<W>x<H>@<rate>Hz"`. The part before the
//! first `@` is the resolution label; the part after it, with any trailing
//! `Hz` suffixes removed, is the refresh rate. A resolution label is
//! compared to a target size by splitting it on `x` and keeping the
//! segments that read as integers: when exactly two remain, the squared
//! Euclidean distance to the target applies, otherwise the label is as far
//! away as possible.

use vstd::prelude::*;

use crate::numparse::{
    find_char, first_index_of, parse_int_i64, parse_int_spec, parse_rate_milli, parse_rate_spec,
    lemma_first_index_bounds,
};

verus! {

/// `s` with every trailing `Hz` removed.
pub open spec fn trim_hz(s: Seq<char>) -> Seq<char>
    decreases s.len(),
{
    if s.len() >= 2 && s[s.len() - 2] == 'H' && s[s.len() - 1] == 'z' {
        trim_hz(s.take(s.len() - 2))
    } else {
        s
    }
}

/// What `parse_mode` returns: the resolution label and the millihertz
/// rate, or nothing when there is no `@` or the rate does not read as a
/// decimal numeral.
pub open spec fn parse_mode_spec(s: Seq<char>) -> Option<(Seq<char>, u64)> {
    let k = first_index_of(s, '@');
    if k == s.len() {
        None
    } else {
        match parse_rate_spec(trim_hz(s.skip(k + 1))) {
            Some(r) => Some((s.take(k), r)),
            None => None,
        }
    }
}

/// Splits a mode string into its resolution label and millihertz rate.
pub fn parse_mode(s: &str) -> (r: Option<(String, u64)>)
    ensures
        match r {
            Some(p) => parse_mode_spec(s@) == Some((p.0@, p.1)),
            None => parse_mode_spec(s@) is None,
        },
{
    let len = s.unicode_len();
    let k = find_char(s, '@');
    if k == len {
        return None;
    }
    let sub = s.substring_char(k + 1, len);
    proof {
        assert(sub@ =~= s@.skip(k as int + 1));
    }
    let sub_len = sub.unicode_len();
    let mut end = sub_len;
    proof {
        assert(sub@.take(end as int) =~= sub@);
    }
    while end >= 2 && sub.get_char(end - 2) == 'H' && sub.get_char(end - 1) == 'z'
        invariant
            end <= sub_len,
            sub_len == sub@.len(),
            trim_hz(sub@) == trim_hz(sub@.take(end as int)),
        decreases end,
    {
        proof {
            let t = sub@.take(end as int);
            assert(t[end - 2] == sub@[end - 2] && t[end - 1] == sub@[end - 1]);
            assert(t.take(end - 2) =~= sub@.take(end - 2));
        }
        end = end - 2;
    }
    proof {
        assert(trim_hz(sub@.take(end as int)) == sub@.take(end as int));
    }
    let rate_str = sub.substring_char(0, end);
    proof {
        assert(rate_str@ =~= sub@.take(end as int));
    }
    match parse_rate_milli(rate_str) {
        Some(m) => {
            let res = s.substring_char(0, k).to_owned();
            proof {
                assert(res@ =~= s@.take(k as int));
            }
            Some((res, m))
        },
        None => None,
    }
}

/// The values of the `x`-separated segments of `s` that read as integers.
pub open spec fn parsed_dims(s: Seq<char>) -> Seq<int>
    decreases s.len(),
    via parsed_dims_decreases
{
    let k = first_index_of(s, 'x');
    if k == s.len() {
        match parse_int_spec(s) {
            Some(v) => seq![v as int],
            None => Seq::empty(),
        }
    } else {
        (match parse_int_spec(s.take(k)) {
            Some(v) => seq![v as int],
            None => Seq::empty(),
        }) + parsed_dims(s.skip(k + 1))
    }
}

#[via_fn]
proof fn parsed_dims_decreases(s: Seq<char>) {
    lemma_first_index_bounds(s, 'x');
}

/// Collects the integer-valued `x`-separated segments of `s`.
pub fn parse_dims(s: &str) -> (v: Vec<i64>)
    ensures
        v@.map_values(|x: i64| x as int) =~= parsed_dims(s@),
    decreases s@.len(),
{
    let len = s.unicode_len();
    let k = find_char(s, 'x');
    if k == len {
        let mut v: Vec<i64> = Vec::new();
        match parse_int_i64(s) {
            Some(x) => {
                v.push(x);
            },
            None => {},
        }
        v
    } else {
        proof {
            lemma_first_index_bounds(s@, 'x');
        }
        let head_str = s.substring_char(0, k);
        proof {
            assert(head_str@ =~= s@.take(k as int));
        }
        let head = parse_int_i64(head_str);
        let tail_str = s.substring_char(k + 1, len);
        proof {
            assert(tail_str@ =~= s@.skip(k as int + 1));
        }
        let mut rest = parse_dims(tail_str);
        match head {
            Some(x) => {
                rest.insert(0, x);
                proof {
                    assert(rest@.map_values(|x: i64| x as int) =~= parsed_dims(s@));
                }
                rest
            },
            None => rest,
        }
    }
}

/// The distance sentinel for labels that do not read as a width and a
/// height.
pub open spec fn max_distance() -> int {
    u128::MAX as int
}

/// Squared Euclidean distance between the size named by `label` and the
/// target size, capped at the sentinel; the sentinel exactly when the
/// label does not read as two integers (or the true distance reaches it).
pub open spec fn res_distance(label: Seq<char>, tw: int, th: int) -> int {
    let d = parsed_dims(label);
    if d.len() == 2 {
        let full = (d[0] - tw) * (d[0] - tw) + (d[1] - th) * (d[1] - th);
        if full <= max_distance() {
            full
        } else {
            max_distance()
        }
    } else {
        max_distance()
    }
}

/// The absolute difference of two signed values.
fn abs_diff_i64(a: i64, b: i64) -> (r: u64)
    ensures
        r as int == if a >= b {
            a - b
        } else {
            b - a
        },
{
    let wide = (a as i128) - (b as i128);
    if wide >= 0 {
        wide as u64
    } else {
        (-wide) as u64
    }
}

/// Computes the capped squared distance between a resolution label and a
/// target size.
pub fn resolution_distance(label: &str, tw: i64, th: i64) -> (r: u128)
    ensures
        r as int == res_distance(label@, tw as int, th as int),
{
    let dims = parse_dims(label);
    if dims.len() == 2 {
        let d0 = dims[0];
        let d1 = dims[1];
        proof {
            assert(parsed_dims(label@)[0] == d0 as int);
            assert(parsed_dims(label@)[1] == d1 as int);
        }
        let dw = abs_diff_i64(d0, tw);
        let dh = abs_diff_i64(d1, th);
        proof {
            assert((dw as u128) * (dw as u128) <= u128::MAX && (dh as u128) * (dh as u128)
                <= u128::MAX) by (nonlinear_arith)
                requires
                    dw as u128 <= 0xffff_ffff_ffff_ffffu128,
                    dh as u128 <= 0xffff_ffff_ffff_ffffu128,
            ;
        }
        let sq1 = (dw as u128) * (dw as u128);
        let sq2 = (dh as u128) * (dh as u128);
        proof {
            assert(sq1 as int == (d0 - tw) * (d0 - tw) && sq2 as int == (d1 - th) * (d1 - th))
                by (nonlinear_arith)
                requires
                    dw as int == if d0 >= tw { d0 - tw } else { tw - d0 },
                    dh as int == if d1 >= th { d1 - th } else { th - d1 },
                    sq1 as int == (dw as int) * (dw as int),
                    sq2 as int == (dh as int) * (dh as int),
            ;
        }
        if sq2 > u128::MAX - sq1 {
            u128::MAX
        } else {
            sq1 + sq2
        }
    } else {
        u128::MAX
    }
}

} // verus!
