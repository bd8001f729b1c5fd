//! Decimal rendering of cell values, as appended to the output accumulator.

use vstd::prelude::*;
use crate::text::{char_val, char_vals};

verus! {

/// The code points of the decimal digits of `n`, most significant first.
pub open spec fn dec_uvals(n: nat) -> Seq<i64>
    decreases n,
{
    if n < 10 {
        seq![(48 + n) as i64]
    } else {
        dec_uvals(n / 10).push((48 + n % 10) as i64)
    }
}

/// The code points of the decimal form of `v`, a minus sign first when `v`
/// is negative.
pub open spec fn dec_vals(v: int) -> Seq<i64> {
    if v < 0 {
        seq![45i64] + dec_uvals((-v) as nat)
    } else {
        dec_uvals(v as nat)
    }
}

/// The digit character with value `d`.
fn digit_char(d: u64) -> (c: char)
    requires
        d < 10,
    ensures
        char_val(c) == 48 + d,
{
    let c = match char::from_u32((48 + d) as u32) {
        Some(c) => c,
        None => {
            proof {
                assert(false);
            }
            ' '
        },
    };
    c
}

/// Appends the decimal digits of `n` to `out`.
fn push_udec(out: &mut String, n: u64)
    ensures
        char_vals(final(out)@) == char_vals(old(out)@) + dec_uvals(n as nat),
    decreases n,
{
    if n < 10 {
        let c = digit_char(n);
        let ghost prev = out@;
        out.push(c);
        proof {
            assert(char_vals(out@) =~= char_vals(prev).push(char_val(c)));
            assert(char_vals(prev) + dec_uvals(n as nat) =~= char_vals(prev).push(
                (48 + n) as i64,
            ));
        }
    } else {
        push_udec(out, n / 10);
        let c = digit_char(n % 10);
        let ghost prev = out@;
        out.push(c);
        proof {
            assert(char_vals(out@) =~= char_vals(prev).push(char_val(c)));
            assert(char_vals(old(out)@) + dec_uvals(n as nat) =~= (char_vals(old(out)@)
                + dec_uvals((n / 10) as nat)).push((48 + n % 10) as i64));
        }
    }
}

/// Appends the decimal form of `v` to `out`.
pub fn push_decimal(out: &mut String, v: i64)
    ensures
        char_vals(final(out)@) == char_vals(old(out)@) + dec_vals(v as int),
{
    if v < 0 {
        let minus = match char::from_u32(45u32) {
            Some(c) => c,
            None => {
                proof {
                    assert(false);
                }
                ' '
            },
        };
        let ghost before = out@;
        out.push(minus);
        proof {
            assert(char_vals(out@) =~= char_vals(before).push(45i64));
        }
        let magnitude: u64 = ((-(v + 1)) as u64) + 1;
        proof {
            assert(magnitude == -(v as int));
        }
        push_udec(out, magnitude);
        proof {
            assert(char_vals(before) + dec_vals(v as int) =~= char_vals(before).push(45i64)
                + dec_uvals((-(v as int)) as nat));
        }
    } else {
        push_udec(out, v as u64);
    }
}

} // verus!
