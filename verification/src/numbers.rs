//! Decimal text-to-integer conversion.
//!
//! Header values carry integers in plain decimal, optionally preceded by a
//! single `+` (or `-` for signed targets), exactly as the standard textual
//! conversion for Rust's integer types accepts them. The functions here
//! implement that conversion over raw bytes and are proved against the
//! spec-level reading [`dec_value`].

use vstd::prelude::*;

verus! {

/// ASCII decimal digit.
pub open spec fn is_digit(b: u8) -> bool {
    48 <= b <= 57
}

pub open spec fn all_digits(s: Seq<u8>) -> bool {
    forall|i: int| 0 <= i < s.len() ==> is_digit(s[i])
}

/// The integer a digit string denotes, most significant digit first.
pub open spec fn dec_value(s: Seq<u8>) -> int
    decreases s.len(),
{
    if s.len() == 0 {
        0
    } else {
        dec_value(s.drop_last()) * 10 + (s.last() - 48)
    }
}

/// Reading of a bare digit string, bounded by `max`: at least one digit,
/// nothing but digits, and a value within the bound.
pub open spec fn spec_digits_max(s: Seq<u8>, max: int) -> Option<int> {
    if s.len() > 0 && all_digits(s) {
        if dec_value(s) <= max {
            Some(dec_value(s))
        } else {
            None
        }
    } else {
        None
    }
}

proof fn lemma_dec_value_nonneg(s: Seq<u8>)
    requires
        all_digits(s),
    ensures
        dec_value(s) >= 0,
    decreases s.len(),
{
    if s.len() > 0 {
        assert(all_digits(s.drop_last()));
        lemma_dec_value_nonneg(s.drop_last());
    }
}

proof fn lemma_dec_value_push(s: Seq<u8>, b: u8)
    ensures
        dec_value(s.push(b)) == dec_value(s) * 10 + (b - 48),
{
    assert(s.push(b).drop_last() =~= s);
    assert(s.push(b).last() == b);
}

proof fn lemma_step_over(acc: int, d: int, max: int)
    by (nonlinear_arith)
    requires
        0 <= d <= 9,
        0 <= max,
        0 <= acc,
        acc > max / 10 || (acc == max / 10 && d > max % 10),
    ensures
        acc * 10 + d > max,
{
}

proof fn lemma_step_fits(acc: int, d: int, max: int)
    by (nonlinear_arith)
    requires
        0 <= d <= 9,
        0 <= max,
        0 <= acc <= max / 10,
        acc < max / 10 || d <= max % 10,
    ensures
        acc * 10 + d <= max,
{
}

/// Converts a bare digit string, rejecting values above `max`.
pub fn parse_digits_max(s: &[u8], max: u128) -> (r: Option<u128>)
    ensures
        match r {
            Some(v) => spec_digits_max(s@, max as int) == Some(v as int),
            None => spec_digits_max(s@, max as int) is None,
        },
{
    if s.len() == 0 {
        return None;
    }
    let mut i: usize = 0;
    let mut acc: u128 = 0;
    let mut over: bool = false;
    while i < s.len()
        invariant
            0 <= i <= s.len(),
            all_digits(s@.subrange(0, i as int)),
            over ==> dec_value(s@.subrange(0, i as int)) > max,
            !over ==> acc == dec_value(s@.subrange(0, i as int)) && acc <= max,
        decreases s.len() - i,
    {
        let b = s[i];
        if b < 48 || b > 57 {
            assert(!is_digit(s@[i as int]));
            return None;
        }
        let d: u128 = (b - 48) as u128;
        let ghost pre = s@.subrange(0, i as int);
        proof {
            assert(s@.subrange(0, i + 1) =~= pre.push(s@[i as int]));
            lemma_dec_value_push(pre, s@[i as int]);
        }
        if over {
            proof {
                lemma_dec_value_nonneg(pre);
                assert(dec_value(pre) * 10 + (b - 48) > max) by (nonlinear_arith)
                    requires dec_value(pre) > max >= 0, b >= 48;
            }
        } else if acc > max / 10 || (acc == max / 10 && d > max % 10) {
            proof {
                lemma_step_over(acc as int, d as int, max as int);
            }
            over = true;
        } else {
            proof {
                lemma_step_fits(acc as int, d as int, max as int);
            }
            acc = acc * 10 + d;
        }
        i = i + 1;
    }
    proof {
        assert(s@.subrange(0, s@.len() as int) =~= s@);
    }
    if over {
        None
    } else {
        Some(acc)
    }
}

/// Reading of an unsigned decimal: an optional leading `+`, then digits.
pub open spec fn spec_parse_unsigned(s: Seq<u8>, max: int) -> Option<int> {
    if s.len() > 0 && s[0] == 43 {
        spec_digits_max(s.drop_first(), max)
    } else {
        spec_digits_max(s, max)
    }
}

/// Reading of a signed decimal: an optional leading `+` or `-`, then digits,
/// with the value held inside `[min, max]`.
pub open spec fn spec_parse_signed(s: Seq<u8>, min: int, max: int) -> Option<int> {
    if s.len() > 0 && s[0] == 45 {
        match spec_digits_max(s.drop_first(), -min) {
            Some(v) => Some(-v),
            None => None,
        }
    } else {
        spec_parse_unsigned(s, max)
    }
}

/// Converts an unsigned decimal with an optional leading `+`.
pub fn parse_unsigned(s: &[u8], max: u128) -> (r: Option<u128>)
    ensures
        match r {
            Some(v) => spec_parse_unsigned(s@, max as int) == Some(v as int),
            None => spec_parse_unsigned(s@, max as int) is None,
        },
{
    if s.len() > 0 && s[0] == 43 {
        let rest = vstd::slice::slice_subrange(s, 1, s.len());
        proof {
            assert(rest@ =~= s@.drop_first());
        }
        parse_digits_max(rest, max)
    } else {
        parse_digits_max(s, max)
    }
}

/// Converts a signed decimal. `min_mag` is the magnitude of the least
/// accepted value, `max` the greatest accepted value.
pub fn parse_signed(s: &[u8], min_mag: u128, max: u128) -> (r: Option<i128>)
    requires
        min_mag <= 0x8000_0000_0000_0000_0000_0000_0000_0000u128,
        max <= 0x7fff_ffff_ffff_ffff_ffff_ffff_ffff_ffffu128,
    ensures
        match r {
            Some(v) => spec_parse_signed(s@, -(min_mag as int), max as int) == Some(v as int),
            None => spec_parse_signed(s@, -(min_mag as int), max as int) is None,
        },
{
    if s.len() > 0 && s[0] == 45 {
        let rest = vstd::slice::slice_subrange(s, 1, s.len());
        proof {
            assert(rest@ =~= s@.drop_first());
        }
        match parse_digits_max(rest, min_mag) {
            Some(m) => {
                if m > 0x7fff_ffff_ffff_ffff_ffff_ffff_ffff_ffffu128 {
                    Some(i128::MIN)
                } else {
                    Some(-(m as i128))
                }
            },
            None => None,
        }
    } else {
        match parse_unsigned(s, max) {
            Some(m) => Some(m as i128),
            None => None,
        }
    }
}

} // verus!
